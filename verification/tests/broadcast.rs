use broadcast_stack::broadcast::{
    best_effort_broadcast, fifo_broadcast, reliable_broadcast, uniform_reliable_broadcast,
};
use broadcast_stack::delivered::{AccessDeliveredSet, DeliveredSet, LogEvent};
use broadcast_stack::hosts::Node;
use broadcast_stack::udp::{Payload, PayloadKind};

fn node(id: u32) -> Node {
    Node { id, address: "localhost".to_string(), port: 11000 + id as u16 }
}

fn payload(owner_id: u32, packet_uid: u32, kind: PayloadKind) -> Payload {
    Payload {
        owner_id,
        sender_id: owner_id,
        packet_uid,
        kind,
        vector_clock: vec![0],
        buffer: packet_uid.to_string().into_bytes(),
    }
}

fn ledger(total_nodes: u32, current_node_id: u32) -> AccessDeliveredSet {
    AccessDeliveredSet::new(DeliveredSet::new(), total_nodes, current_node_id)
}

fn destinations(messages: &[broadcast_stack::tcp::Message]) -> Vec<u32> {
    messages.iter().map(|message| message.destination.id).collect()
}

#[test]
fn best_effort_broadcast_reaches_every_other_node_in_order() {
    let nodes = vec![node(3), node(1), node(2), node(4)];
    let mut ledger = ledger(4, 2);
    let message = payload(2, 1, PayloadKind::Beb);
    let outbox = best_effort_broadcast(&mut ledger, &nodes, &message);
    assert_eq!(destinations(&outbox.messages), vec![3, 1, 4]);
    for queued in &outbox.messages {
        assert_eq!(queued.payload, message);
    }
    assert_eq!(outbox.messages[0].destination, node(3));
    assert_eq!(
        outbox.events,
        vec![LogEvent::Delivery { owner_id: 2, kind: PayloadKind::Beb, contents: b"1".to_vec() }]
    );
    assert!(ledger.was_seen(&message));
}

#[test]
fn best_effort_broadcast_of_a_process_alone_queues_nothing() {
    let mut ledger = ledger(1, 1);
    let outbox =
        best_effort_broadcast(&mut ledger, &vec![node(1)], &payload(1, 1, PayloadKind::Beb));
    assert!(outbox.messages.is_empty());
    assert_eq!(outbox.events.len(), 1);
    let outbox = best_effort_broadcast(&mut ledger, &Vec::new(), &payload(1, 2, PayloadKind::Beb));
    assert!(outbox.messages.is_empty());
    assert_eq!(outbox.events.len(), 1);
}

#[test]
fn best_effort_broadcast_sends_again_what_was_seen() {
    let nodes = vec![node(1), node(2)];
    let mut ledger = ledger(2, 1);
    let message = payload(1, 1, PayloadKind::Beb);
    assert_eq!(best_effort_broadcast(&mut ledger, &nodes, &message).messages.len(), 1);
    let again = best_effort_broadcast(&mut ledger, &nodes, &message);
    assert_eq!(again.messages.len(), 1);
    assert!(again.events.is_empty());
}

#[test]
fn reliable_broadcast_sends_a_payload_once() {
    let nodes = vec![node(1), node(2), node(3)];
    let mut ledger = ledger(3, 1);
    let message = payload(2, 5, PayloadKind::Rb);
    let first = reliable_broadcast(&mut ledger, &nodes, &message);
    assert_eq!(destinations(&first.messages), vec![2, 3]);
    assert_eq!(first.events.len(), 1);
    let second = reliable_broadcast(&mut ledger, &nodes, &message);
    assert!(second.messages.is_empty());
    assert!(second.events.is_empty());
}

#[test]
fn reliable_broadcast_relays_what_only_others_acknowledged() {
    let nodes = vec![node(1), node(2), node(3)];
    let mut ledger = ledger(3, 1);
    let message = payload(2, 5, PayloadKind::Rb);
    assert_eq!(ledger.insert(2, &message).len(), 1);
    let relay = reliable_broadcast(&mut ledger, &nodes, &message);
    assert_eq!(destinations(&relay.messages), vec![2, 3]);
    assert!(relay.events.is_empty());
}

#[test]
fn uniform_reliable_broadcast_sends_but_holds_delivery_back() {
    let nodes = vec![node(1), node(2), node(3)];
    let mut ledger = ledger(3, 1);
    let message = payload(1, 1, PayloadKind::Urb);
    let outbox = uniform_reliable_broadcast(&mut ledger, &nodes, &message);
    assert_eq!(destinations(&outbox.messages), vec![2, 3]);
    assert!(outbox.events.is_empty());
    assert!(uniform_reliable_broadcast(&mut ledger, &nodes, &message).messages.is_empty());
    let mut answer = payload(1, 1, PayloadKind::Ack);
    answer.sender_id = 3;
    assert_eq!(
        ledger.insert(3, &answer),
        vec![LogEvent::Delivery { owner_id: 1, kind: PayloadKind::Urb, contents: b"1".to_vec() }]
    );
}

#[test]
fn fifo_broadcast_sends_in_any_order_and_delivers_in_sequence() {
    let nodes = vec![node(1), node(2)];
    let mut ledger = ledger(1, 1);
    let second = fifo_broadcast(&mut ledger, &nodes, &payload(1, 2, PayloadKind::Fifob));
    assert_eq!(destinations(&second.messages), vec![2]);
    assert!(second.events.is_empty());
    let first = fifo_broadcast(&mut ledger, &nodes, &payload(1, 1, PayloadKind::Fifob));
    assert_eq!(destinations(&first.messages), vec![2]);
    assert_eq!(
        first.events,
        vec![
            LogEvent::Delivery { owner_id: 1, kind: PayloadKind::Fifob, contents: b"1".to_vec() },
            LogEvent::Delivery { owner_id: 1, kind: PayloadKind::Fifob, contents: b"2".to_vec() },
        ]
    );
    assert!(fifo_broadcast(&mut ledger, &nodes, &payload(1, 1, PayloadKind::Fifob))
        .messages
        .is_empty());
}
