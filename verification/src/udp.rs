//! The payload carried by one datagram.

use vstd::prelude::*;

verus! {

/// The delivery policy that a payload asks for.
#[derive(Debug, Clone, Copy, PartialEq, Eq, Structural)]
pub enum PayloadKind {
    /// Acknowledges the receipt of another payload.
    Ack,
    /// Point-to-point message over the perfect link.
    Tcp,
    /// Best-effort broadcast.
    Beb,
    /// Reliable broadcast.
    Rb,
    /// Uniform-reliable broadcast.
    Urb,
    /// FIFO broadcast.
    Fifob,
}

impl PayloadKind {
    /// Whether the payload only acknowledges another one.
    pub fn is_ack(&self) -> (ack: bool)
        ensures
            ack == (*self == PayloadKind::Ack),
    {
        matches!(self, PayloadKind::Ack)
    }
}

/// One application message as it travels between processes.
///
/// `(owner_id, packet_uid)` names the message; `sender_id` names the process
/// that put this very datagram on the wire and changes from hop to hop.
#[derive(Debug, PartialEq, Eq)]
pub struct Payload {
    pub owner_id: u32,
    pub sender_id: u32,
    pub packet_uid: u32,
    pub kind: PayloadKind,
    pub vector_clock: Vec<u32>,
    pub buffer: Vec<u8>,
}

/// The mathematical value of a [`Payload`].
pub ghost struct PayloadView {
    pub owner_id: u32,
    pub sender_id: u32,
    pub packet_uid: u32,
    pub kind: PayloadKind,
    pub vector_clock: Seq<u32>,
    pub buffer: Seq<u8>,
}

impl PayloadView {
    /// The same message, marked as sent by `sender_id`.
    pub open spec fn stamped(self, sender_id: u32) -> PayloadView {
        PayloadView { sender_id, ..self }
    }

    /// The acknowledgment that answers this payload: the same message with
    /// its kind replaced.
    pub open spec fn acknowledgment(self) -> PayloadView {
        PayloadView { kind: PayloadKind::Ack, ..self }
    }
}

impl View for Payload {
    type V = PayloadView;

    open spec fn view(&self) -> PayloadView {
        PayloadView {
            owner_id: self.owner_id,
            sender_id: self.sender_id,
            packet_uid: self.packet_uid,
            kind: self.kind,
            vector_clock: self.vector_clock@,
            buffer: self.buffer@,
        }
    }
}

impl Clone for Payload {
    fn clone(&self) -> (copy: Self)
        ensures
            copy@ == self@,
    {
        let vector_clock = self.vector_clock.clone();
        let buffer = self.buffer.clone();
        assert(vector_clock@ =~= self.vector_clock@);
        assert(buffer@ =~= self.buffer@);
        Payload {
            owner_id: self.owner_id,
            sender_id: self.sender_id,
            packet_uid: self.packet_uid,
            kind: self.kind,
            vector_clock,
            buffer,
        }
    }
}

} // verus!
