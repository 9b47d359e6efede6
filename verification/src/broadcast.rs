//! The broadcast primitives. Each of them queues one message for every
//! other process and takes the payload into the ledger of this one; what
//! tells them apart on delivery is the kind of the payload, which the
//! ledger reads.

use crate::delivered::{delivery_events, event_views, AccessDeliveredSet, LogEvent, LogEventView};
use crate::hosts::Node;
use crate::ledger::Ledger;
use crate::tcp::{message_views, Message, MessageView};
use crate::udp::{Payload, PayloadView};
use vstd::prelude::*;

verus! {

/// What a step hands to the loops: messages for the send queue and events
/// for the log, both in order.
#[derive(Debug)]
pub struct Outbox {
    pub messages: Vec<Message>,
    pub events: Vec<LogEvent>,
}

/// What a step leaves behind: the ledger, the messages queued and the
/// events logged.
pub ghost struct Outcome {
    pub ledger: Ledger,
    pub messages: Seq<MessageView>,
    pub events: Seq<LogEventView>,
}

impl Outbox {
    /// The outbox and the ledger are those of `outcome`.
    pub open spec fn holds(&self, ledger: Ledger, outcome: Outcome) -> bool {
        &&& ledger == outcome.ledger
        &&& message_views(self.messages@) == outcome.messages
        &&& event_views(self.events@) == outcome.events
    }
}

/// The processes other than `current_node_id`.
pub open spec fn is_peer(current_node_id: u32) -> spec_fn(Node) -> bool {
    |node: Node| node.id != current_node_id
}

/// One message with `payload` for every peer, in the order of the host list.
pub open spec fn fan_out(nodes: Seq<Node>, current_node_id: u32, payload: PayloadView) -> Seq<
    MessageView,
> {
    nodes.filter(is_peer(current_node_id)).map_values(
        |node: Node| MessageView { payload, destination: node@ },
    )
}

/// Best-effort broadcast: a message for every peer, and the payload taken
/// in as if it had arrived from this process.
pub open spec fn best_effort_outcome(
    ledger: Ledger,
    total_nodes: u32,
    current_node_id: u32,
    nodes: Seq<Node>,
    payload: PayloadView,
) -> Outcome {
    let (next, delivered) = ledger.insert(total_nodes, current_node_id, payload);
    Outcome {
        ledger: next,
        messages: fan_out(nodes, current_node_id, payload),
        events: delivery_events(delivered),
    }
}

/// Reliable broadcast: best-effort broadcast of a payload that this process
/// has not taken in yet, and nothing otherwise.
pub open spec fn reliable_outcome(
    ledger: Ledger,
    total_nodes: u32,
    current_node_id: u32,
    nodes: Seq<Node>,
    payload: PayloadView,
) -> Outcome {
    if ledger.acked.contains((current_node_id, payload.owner_id, payload.packet_uid)) {
        Outcome { ledger, messages: Seq::empty(), events: Seq::empty() }
    } else {
        best_effort_outcome(ledger, total_nodes, current_node_id, nodes, payload)
    }
}

/// Queues `payload` once for every process but this one.
fn fan_out_messages(nodes: &Vec<Node>, current_node_id: u32, payload: &Payload) -> (messages: Vec<
    Message,
>)
    ensures
        message_views(messages@) == fan_out(nodes@, current_node_id, payload@),
{
    let mut messages: Vec<Message> = Vec::new();
    let mut index: usize = 0;
    proof {
        reveal(Seq::filter);
        assert(nodes@.take(0) =~= Seq::empty());
        assert(message_views(messages@) =~= fan_out(nodes@.take(0), current_node_id, payload@));
    }
    while index < nodes.len()
        invariant
            index <= nodes.len(),
            message_views(messages@) == fan_out(
                nodes@.take(index as int),
                current_node_id,
                payload@,
            ),
        decreases nodes.len() - index,
    {
        let ghost seen = nodes@.take(index as int);
        let ghost queued = messages@;
        if nodes[index].id != current_node_id {
            messages.push(Message::new(payload.clone(), nodes[index].clone()));
        }
        proof {
            reveal(Seq::filter);
            let peers = is_peer(current_node_id);
            let next = nodes@.take(index + 1);
            assert(next.drop_last() =~= seen);
            assert(next.last() == nodes[index as int]);
            if nodes[index as int].id != current_node_id {
                assert(next.filter(peers) == seen.filter(peers).push(nodes[index as int]));
                assert(message_views(messages@) =~= message_views(queued).push(
                    MessageView { payload: payload@, destination: nodes[index as int]@ },
                ));
                assert(fan_out(next, current_node_id, payload@) =~= fan_out(
                    seen,
                    current_node_id,
                    payload@,
                ).push(MessageView { payload: payload@, destination: nodes[index as int]@ }));
            } else {
                assert(next.filter(peers) == seen.filter(peers));
            }
        }
        index += 1;
    }
    assert(nodes@.take(nodes.len() as int) =~= nodes@);
    messages
}

/// Best-effort broadcast: queues the payload for every other process, then
/// marks it as seen by this one, which delivers it here if its kind asks
/// for no more.
pub fn best_effort_broadcast(
    ledger: &mut AccessDeliveredSet,
    nodes: &Vec<Node>,
    payload: &Payload,
) -> (outbox: Outbox)
    ensures
        final(ledger).total_nodes() == old(ledger).total_nodes(),
        final(ledger).current_node_id() == old(ledger).current_node_id(),
        outbox.holds(
            final(ledger)@,
            best_effort_outcome(
                old(ledger)@,
                old(ledger).total_nodes(),
                old(ledger).current_node_id(),
                nodes@,
                payload@,
            ),
        ),
{
    let messages = fan_out_messages(nodes, ledger.current_node_id(), payload);
    let events = ledger.mark_as_seen(payload);
    Outbox { messages, events }
}

/// Reliable broadcast: best-effort broadcast of a payload that this process
/// sees for the first time. A payload seen before is not broadcast again,
/// which keeps relays from echoing each other.
pub fn reliable_broadcast(
    ledger: &mut AccessDeliveredSet,
    nodes: &Vec<Node>,
    payload: &Payload,
) -> (outbox: Outbox)
    ensures
        final(ledger).total_nodes() == old(ledger).total_nodes(),
        final(ledger).current_node_id() == old(ledger).current_node_id(),
        outbox.holds(
            final(ledger)@,
            reliable_outcome(
                old(ledger)@,
                old(ledger).total_nodes(),
                old(ledger).current_node_id(),
                nodes@,
                payload@,
            ),
        ),
{
    if ledger.was_seen(payload) {
        let outbox = Outbox { messages: Vec::new(), events: Vec::new() };
        assert(message_views(outbox.messages@) =~= Seq::empty());
        assert(event_views(outbox.events@) =~= Seq::empty());
        outbox
    } else {
        best_effort_broadcast(ledger, nodes, payload)
    }
}

/// Uniform-reliable broadcast. Sending is that of reliable broadcast; the
/// ledger holds the delivery back until a majority has acknowledged.
pub fn uniform_reliable_broadcast(
    ledger: &mut AccessDeliveredSet,
    nodes: &Vec<Node>,
    payload: &Payload,
) -> (outbox: Outbox)
    ensures
        final(ledger).total_nodes() == old(ledger).total_nodes(),
        final(ledger).current_node_id() == old(ledger).current_node_id(),
        outbox.holds(
            final(ledger)@,
            reliable_outcome(
                old(ledger)@,
                old(ledger).total_nodes(),
                old(ledger).current_node_id(),
                nodes@,
                payload@,
            ),
        ),
{
    reliable_broadcast(ledger, nodes, payload)
}

/// FIFO broadcast. Sending is that of uniform-reliable broadcast; the
/// ledger delivers the messages of one owner in the order of their
/// sequence numbers.
pub fn fifo_broadcast(
    ledger: &mut AccessDeliveredSet,
    nodes: &Vec<Node>,
    payload: &Payload,
) -> (outbox: Outbox)
    ensures
        final(ledger).total_nodes() == old(ledger).total_nodes(),
        final(ledger).current_node_id() == old(ledger).current_node_id(),
        outbox.holds(
            final(ledger)@,
            reliable_outcome(
                old(ledger)@,
                old(ledger).total_nodes(),
                old(ledger).current_node_id(),
                nodes@,
                payload@,
            ),
        ),
{
    uniform_reliable_broadcast(ledger, nodes, payload)
}

} // verus!
