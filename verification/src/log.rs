//! The lines of the output log, one for each event.

use crate::delivered::{LogEvent, LogEventView};
use crate::text::{decimal, decimal_digits};
use crate::udp::PayloadKind;
use vstd::prelude::*;
use vstd::string::is_ascii_spec_bytes;

verus! {

/// How a line of the log is laid out.
#[derive(Debug, Clone, Copy, PartialEq, Eq, Structural)]
pub enum LogStyle {
    /// `b <contents>` for a dispatch, `d <owner> <contents>` for a delivery.
    Compact,
    /// `sent <kind>: <contents>` for a dispatch, `delivered <kind> from
    /// <owner>: <contents>` for a delivery.
    Verbose,
}

/// The bytes of a text of ASCII characters.
pub open spec fn ascii(text: Seq<char>) -> Seq<u8> {
    Seq::new(text.len(), |i: int| text[i] as u8)
}

/// The name of a kind of payload.
pub open spec fn kind_name(kind: PayloadKind) -> Seq<char> {
    match kind {
        PayloadKind::Ack => "Ack"@,
        PayloadKind::Tcp => "Tcp"@,
        PayloadKind::Beb => "Beb"@,
        PayloadKind::Rb => "Rb"@,
        PayloadKind::Urb => "Urb"@,
        PayloadKind::Fifob => "Fifob"@,
    }
}

/// The line that an event leaves in the log, with the line feed that ends
/// it. The contents of the payload go into the line as they are.
pub open spec fn log_line(event: LogEventView, style: LogStyle) -> Seq<u8> {
    match event {
        LogEventView::Dispatch { recipient, kind, contents } => match style {
            LogStyle::Compact => ascii("b "@) + contents + ascii("\n"@),
            LogStyle::Verbose => ascii("sent "@) + ascii(kind_name(kind)) + ascii(": "@)
                + contents + ascii("\n"@),
        },
        LogEventView::Delivery { owner_id, kind, contents } => match style {
            LogStyle::Compact => ascii("d "@) + decimal(owner_id as nat) + ascii(" "@) + contents
                + ascii("\n"@),
            LogStyle::Verbose => ascii("delivered "@) + ascii(kind_name(kind)) + ascii(" from "@)
                + decimal(owner_id as nat) + ascii(": "@) + contents + ascii("\n"@),
        },
    }
}

/// Appends a text of ASCII characters to a line.
fn push_text(line: &mut Vec<u8>, text: &str)
    requires
        text.is_ascii(),
    ensures
        final(line)@ == old(line)@ + ascii(text@),
{
    broadcast use is_ascii_spec_bytes;

    line.extend_from_slice(text.as_bytes());
    assert(line@ =~= old(line)@ + ascii(text@));
}

/// Appends bytes to a line.
fn push_bytes(line: &mut Vec<u8>, bytes: &Vec<u8>)
    ensures
        final(line)@ == old(line)@ + bytes@,
{
    line.extend_from_slice(bytes.as_slice());
    assert(line@ =~= old(line)@ + bytes@);
}

/// The name of a kind of payload.
fn kind_text(kind: PayloadKind) -> (text: &'static str)
    ensures
        text@ == kind_name(kind),
        text.is_ascii(),
{
    proof {
        reveal_strlit("Ack");
        reveal_strlit("Tcp");
        reveal_strlit("Beb");
        reveal_strlit("Rb");
        reveal_strlit("Urb");
        reveal_strlit("Fifob");
    }
    match kind {
        PayloadKind::Ack => "Ack",
        PayloadKind::Tcp => "Tcp",
        PayloadKind::Beb => "Beb",
        PayloadKind::Rb => "Rb",
        PayloadKind::Urb => "Urb",
        PayloadKind::Fifob => "Fifob",
    }
}

/// Writes the line that an event leaves in the log.
pub fn format_event(event: &LogEvent, style: LogStyle) -> (line: Vec<u8>)
    ensures
        line@ == log_line(event@, style),
{
    proof {
        reveal_strlit("b ");
        reveal_strlit("d ");
        reveal_strlit(" ");
        reveal_strlit("\n");
        reveal_strlit("sent ");
        reveal_strlit(": ");
        reveal_strlit("delivered ");
        reveal_strlit(" from ");
    }
    let mut line: Vec<u8> = Vec::new();
    match event {
        LogEvent::Dispatch { recipient, kind, contents } => {
            match style {
                LogStyle::Compact => {
                    push_text(&mut line, "b ");
                },
                LogStyle::Verbose => {
                    push_text(&mut line, "sent ");
                    push_text(&mut line, kind_text(*kind));
                    push_text(&mut line, ": ");
                },
            }
            push_bytes(&mut line, contents);
        },
        LogEvent::Delivery { owner_id, kind, contents } => {
            match style {
                LogStyle::Compact => {
                    push_text(&mut line, "d ");
                    push_bytes(&mut line, &decimal_digits(*owner_id));
                    push_text(&mut line, " ");
                },
                LogStyle::Verbose => {
                    push_text(&mut line, "delivered ");
                    push_text(&mut line, kind_text(*kind));
                    push_text(&mut line, " from ");
                    push_bytes(&mut line, &decimal_digits(*owner_id));
                    push_text(&mut line, ": ");
                },
            }
            push_bytes(&mut line, contents);
        },
    }
    push_text(&mut line, "\n");
    assert(line@ =~= log_line(event@, style));
    line
}

} // verus!
