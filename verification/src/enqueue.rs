//! The workload: the messages that a process sends of its own accord.
//!
//! Message number `n` of a process carries the decimal digits of `n`, and
//! the numbers run from one.

use crate::broadcast::{
    best_effort_broadcast,
    best_effort_outcome,
    fifo_broadcast,
    reliable_broadcast,
    reliable_outcome,
    uniform_reliable_broadcast,
    Outbox,
    Outcome,
};
use crate::delivered::{event_views, AccessDeliveredSet, LogEvent, LogEventView};
use crate::hosts::{find_node, position_of, Node, NodeView};
use crate::ledger::Ledger;
use crate::tcp::{message_views, Message, MessageView};
use crate::text::{decimal, decimal_digits};
use crate::udp::{Payload, PayloadKind, PayloadView};
use vstd::prelude::*;

verus! {

/// Why no workload was queued.
#[derive(Debug, Clone, Copy, PartialEq, Eq, Structural)]
pub enum EnqueueError {
    /// The host list does not name the receiver.
    UnknownReceiver,
}

/// Message number `packet_uid` of process `current_node_id`.
pub open spec fn workload_payload(
    current_node_id: u32,
    packet_uid: u32,
    kind: PayloadKind,
) -> PayloadView {
    PayloadView {
        owner_id: current_node_id,
        sender_id: current_node_id,
        packet_uid,
        kind,
        vector_clock: seq![0u32],
        buffer: decimal(packet_uid as nat),
    }
}

/// The log entry for the dispatch of a payload.
pub open spec fn dispatch_event(payload: PayloadView, recipient: Option<NodeView>) -> LogEventView {
    LogEventView::Dispatch { recipient, kind: payload.kind, contents: payload.buffer }
}

/// Makes message number `packet_uid` of this process.
fn make_payload(current_node_id: u32, packet_uid: u32, kind: PayloadKind) -> (payload: Payload)
    ensures
        payload@ == workload_payload(current_node_id, packet_uid, kind),
{
    let mut vector_clock = Vec::new();
    vector_clock.push(0u32);
    assert(vector_clock@ =~= seq![0u32]);
    Payload {
        owner_id: current_node_id,
        sender_id: current_node_id,
        packet_uid,
        kind,
        vector_clock,
        buffer: decimal_digits(packet_uid),
    }
}

/// The point-to-point messages `1` to `count` for one receiver.
pub open spec fn tcp_messages(current_node_id: u32, receiver: NodeView, count: nat) -> Seq<
    MessageView,
> {
    Seq::new(
        count,
        |i: int|
            MessageView {
                payload: workload_payload(current_node_id, (i + 1) as u32, PayloadKind::Tcp),
                destination: receiver,
            },
    )
}

/// The log entries for the dispatch of [`tcp_messages`].
pub open spec fn tcp_events(current_node_id: u32, receiver: NodeView, count: nat) -> Seq<
    LogEventView,
> {
    Seq::new(
        count,
        |i: int|
            dispatch_event(
                workload_payload(current_node_id, (i + 1) as u32, PayloadKind::Tcp),
                Some(receiver),
            ),
    )
}

/// Queues the point-to-point workload: messages `1` to `messages_count` for
/// the process called `receiver_id`, each with its entry in the log. The
/// receiver itself has nothing to send.
pub fn enqueue_tcp_messages(
    nodes: &Vec<Node>,
    current_node_id: u32,
    receiver_id: u32,
    messages_count: u32,
) -> (result: Result<Outbox, EnqueueError>)
    ensures
        match result {
            Ok(outbox) => match position_of(nodes@, receiver_id) {
                Some(position) => {
                    let count = if current_node_id == receiver_id {
                        0nat
                    } else {
                        messages_count as nat
                    };
                    &&& 0 <= position < nodes.len()
                    &&& message_views(outbox.messages@) == tcp_messages(
                        current_node_id,
                        nodes[position]@,
                        count,
                    )
                    &&& event_views(outbox.events@) == tcp_events(
                        current_node_id,
                        nodes[position]@,
                        count,
                    )
                },
                None => false,
            },
            Err(error) => error == EnqueueError::UnknownReceiver && position_of(
                nodes@,
                receiver_id,
            ) is None,
        },
{
    let destination = match find_node(nodes, receiver_id) {
        Some(destination) => destination,
        None => {
            return Err(EnqueueError::UnknownReceiver);
        },
    };
    let mut messages: Vec<Message> = Vec::new();
    let mut events: Vec<LogEvent> = Vec::new();
    assert(message_views(messages@) =~= tcp_messages(current_node_id, destination@, 0));
    assert(event_views(events@) =~= tcp_events(current_node_id, destination@, 0));
    if current_node_id == receiver_id {
        return Ok(Outbox { messages, events });
    }
    let mut made: u32 = 0;
    while made < messages_count
        invariant
            made <= messages_count,
            message_views(messages@) == tcp_messages(current_node_id, destination@, made as nat),
            event_views(events@) == tcp_events(current_node_id, destination@, made as nat),
        decreases messages_count - made,
    {
        let ghost queued = messages@;
        let ghost logged = events@;
        made += 1;
        let payload = make_payload(current_node_id, made, PayloadKind::Tcp);
        let ghost sent = payload@;
        let contents = payload.buffer.clone();
        assert(contents@ =~= payload.buffer@);
        messages.push(Message::new(payload, destination.clone()));
        events.push(
            LogEvent::Dispatch {
                recipient: Some(destination.clone()),
                kind: PayloadKind::Tcp,
                contents,
            },
        );
        assert(message_views(messages@) =~= message_views(queued).push(
            MessageView { payload: sent, destination: destination@ },
        ));
        assert(event_views(events@) =~= event_views(logged).push(
            dispatch_event(sent, Some(destination@)),
        ));
        assert(tcp_messages(current_node_id, destination@, made as nat) =~= tcp_messages(
            current_node_id,
            destination@,
            (made - 1) as nat,
        ).push(MessageView { payload: sent, destination: destination@ }));
        assert(tcp_events(current_node_id, destination@, made as nat) =~= tcp_events(
            current_node_id,
            destination@,
            (made - 1) as nat,
        ).push(dispatch_event(sent, Some(destination@))));
    }
    Ok(Outbox { messages, events })
}

/// Whether payloads of a kind are broadcast.
pub open spec fn is_broadcast_kind(kind: PayloadKind) -> bool {
    kind != PayloadKind::Ack && kind != PayloadKind::Tcp
}

/// What the broadcast of one payload leaves behind, by the primitive that
/// its kind selects.
pub open spec fn broadcast_outcome(
    ledger: Ledger,
    total_nodes: u32,
    current_node_id: u32,
    nodes: Seq<Node>,
    payload: PayloadView,
) -> Outcome {
    if payload.kind == PayloadKind::Beb {
        best_effort_outcome(ledger, total_nodes, current_node_id, nodes, payload)
    } else {
        reliable_outcome(ledger, total_nodes, current_node_id, nodes, payload)
    }
}

/// What the broadcasts of messages `1` to `count` leave behind, one after
/// the other: of each of them its entry in the log, then what its
/// broadcast queued and delivered.
pub open spec fn broadcast_workload(
    ledger: Ledger,
    total_nodes: u32,
    current_node_id: u32,
    nodes: Seq<Node>,
    kind: PayloadKind,
    count: nat,
) -> Outcome
    decreases count,
{
    if count == 0 {
        Outcome { ledger, messages: Seq::empty(), events: Seq::empty() }
    } else {
        let before = broadcast_workload(
            ledger,
            total_nodes,
            current_node_id,
            nodes,
            kind,
            (count - 1) as nat,
        );
        let payload = workload_payload(current_node_id, count as u32, kind);
        let round = broadcast_outcome(before.ledger, total_nodes, current_node_id, nodes, payload);
        Outcome {
            ledger: round.ledger,
            messages: before.messages + round.messages,
            events: before.events.push(dispatch_event(payload, None)) + round.events,
        }
    }
}

/// Broadcasts one payload by the primitive that its kind selects.
fn broadcast(ledger: &mut AccessDeliveredSet, nodes: &Vec<Node>, payload: &Payload) -> (outbox:
    Outbox)
    requires
        is_broadcast_kind(payload.kind),
    ensures
        final(ledger).total_nodes() == old(ledger).total_nodes(),
        final(ledger).current_node_id() == old(ledger).current_node_id(),
        outbox.holds(
            final(ledger)@,
            broadcast_outcome(
                old(ledger)@,
                old(ledger).total_nodes(),
                old(ledger).current_node_id(),
                nodes@,
                payload@,
            ),
        ),
{
    match payload.kind {
        PayloadKind::Beb => best_effort_broadcast(ledger, nodes, payload),
        PayloadKind::Rb => reliable_broadcast(ledger, nodes, payload),
        PayloadKind::Urb => uniform_reliable_broadcast(ledger, nodes, payload),
        _ => fifo_broadcast(ledger, nodes, payload),
    }
}

/// Broadcasts messages `1` to `messages_count` of this process as payloads
/// of `kind`, one after the other.
fn broadcast_messages(
    ledger: &mut AccessDeliveredSet,
    nodes: &Vec<Node>,
    messages_count: u32,
    kind: PayloadKind,
) -> (outbox: Outbox)
    requires
        is_broadcast_kind(kind),
    ensures
        final(ledger).total_nodes() == old(ledger).total_nodes(),
        final(ledger).current_node_id() == old(ledger).current_node_id(),
        outbox.holds(
            final(ledger)@,
            broadcast_workload(
                old(ledger)@,
                old(ledger).total_nodes(),
                old(ledger).current_node_id(),
                nodes@,
                kind,
                messages_count as nat,
            ),
        ),
{
    let mut messages: Vec<Message> = Vec::new();
    let mut events: Vec<LogEvent> = Vec::new();
    assert(message_views(messages@) =~= Seq::empty());
    assert(event_views(events@) =~= Seq::empty());
    let current_node_id = ledger.current_node_id();
    let ghost start = ledger@;
    let ghost total_nodes = ledger.total_nodes();
    let mut made: u32 = 0;
    while made < messages_count
        invariant
            made <= messages_count,
            is_broadcast_kind(kind),
            ledger.total_nodes() == total_nodes,
            ledger.current_node_id() == current_node_id,
            ({
                let outcome = broadcast_workload(
                    start,
                    total_nodes,
                    current_node_id,
                    nodes@,
                    kind,
                    made as nat,
                );
                &&& ledger@ == outcome.ledger
                &&& message_views(messages@) == outcome.messages
                &&& event_views(events@) == outcome.events
            }),
        decreases messages_count - made,
    {
        let ghost before = broadcast_workload(
            start,
            total_nodes,
            current_node_id,
            nodes@,
            kind,
            made as nat,
        );
        made += 1;
        let payload = make_payload(current_node_id, made, kind);
        let contents = payload.buffer.clone();
        assert(contents@ =~= payload.buffer@);
        events.push(LogEvent::Dispatch { recipient: None, kind, contents });
        assert(event_views(events@) =~= before.events.push(dispatch_event(payload@, None)));
        let mut round = broadcast(ledger, nodes, &payload);
        let ghost round_messages = message_views(round.messages@);
        let ghost round_events = event_views(round.events@);
        let ghost queued = messages@;
        let ghost logged = events@;
        messages.append(&mut round.messages);
        events.append(&mut round.events);
        assert(message_views(messages@) =~= message_views(queued) + round_messages);
        assert(event_views(events@) =~= event_views(logged) + round_events);
    }
    Outbox { messages, events }
}

/// Queues the broadcast workload: broadcasts messages `1` to
/// `messages_count` of this process as payloads of `kind`, each with its
/// entry in the log before what its broadcast brings about. The kind must be
/// one that is broadcast, unless there is nothing to send.
pub fn enqueue_broadcast_messages(
    ledger: &mut AccessDeliveredSet,
    nodes: &Vec<Node>,
    messages_count: u32,
    kind: PayloadKind,
) -> (outbox: Outbox)
    requires
        is_broadcast_kind(kind) || messages_count == 0,
    ensures
        final(ledger).total_nodes() == old(ledger).total_nodes(),
        final(ledger).current_node_id() == old(ledger).current_node_id(),
        outbox.holds(
            final(ledger)@,
            broadcast_workload(
                old(ledger)@,
                old(ledger).total_nodes(),
                old(ledger).current_node_id(),
                nodes@,
                kind,
                messages_count as nat,
            ),
        ),
{
    if messages_count == 0 {
        let outbox = Outbox { messages: Vec::new(), events: Vec::new() };
        assert(message_views(outbox.messages@) =~= Seq::empty());
        assert(event_views(outbox.events@) =~= Seq::empty());
        return outbox;
    }
    broadcast_messages(ledger, nodes, messages_count, kind)
}

/// Queues the workload of a process: its messages, broadcast as
/// uniform-reliable payloads.
pub fn enqueue_messages(
    ledger: &mut AccessDeliveredSet,
    nodes: &Vec<Node>,
    messages_count: u32,
) -> (outbox: Outbox)
    ensures
        final(ledger).total_nodes() == old(ledger).total_nodes(),
        final(ledger).current_node_id() == old(ledger).current_node_id(),
        outbox.holds(
            final(ledger)@,
            broadcast_workload(
                old(ledger)@,
                old(ledger).total_nodes(),
                old(ledger).current_node_id(),
                nodes@,
                PayloadKind::Urb,
                messages_count as nat,
            ),
        ),
{
    broadcast_messages(ledger, nodes, messages_count, PayloadKind::Urb)
}

} // verus!
