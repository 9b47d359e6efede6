use broadcast_stack::delivered::{AccessDeliveredSet, DeliveredSet, LogEvent};
use broadcast_stack::enqueue::{
    enqueue_broadcast_messages, enqueue_messages, enqueue_tcp_messages, EnqueueError,
};
use broadcast_stack::hosts::Node;
use broadcast_stack::udp::{Payload, PayloadKind};

fn node(id: u32) -> Node {
    Node { id, address: "localhost".to_string(), port: 11000 + id as u16 }
}

fn nodes() -> Vec<Node> {
    vec![node(1), node(2), node(3)]
}

fn ledger(total_nodes: u32, current_node_id: u32) -> AccessDeliveredSet {
    AccessDeliveredSet::new(DeliveredSet::new(), total_nodes, current_node_id)
}

fn own_payload(current_node_id: u32, packet_uid: u32, kind: PayloadKind) -> Payload {
    Payload {
        owner_id: current_node_id,
        sender_id: current_node_id,
        packet_uid,
        kind,
        vector_clock: vec![0],
        buffer: packet_uid.to_string().into_bytes(),
    }
}

fn dispatch(recipient: Option<Node>, kind: PayloadKind, text: &str) -> LogEvent {
    LogEvent::Dispatch { recipient, kind, contents: text.as_bytes().to_vec() }
}

fn delivery(owner_id: u32, kind: PayloadKind, text: &str) -> LogEvent {
    LogEvent::Delivery { owner_id, kind, contents: text.as_bytes().to_vec() }
}

#[test]
fn tcp_workload_numbers_its_messages_from_one() {
    let outbox = enqueue_tcp_messages(&nodes(), 1, 3, 3).unwrap();
    assert_eq!(outbox.messages.len(), 3);
    for (index, message) in outbox.messages.iter().enumerate() {
        assert_eq!(message.payload, own_payload(1, index as u32 + 1, PayloadKind::Tcp));
        assert_eq!(message.destination, node(3));
    }
    assert_eq!(
        outbox.events,
        vec![
            dispatch(Some(node(3)), PayloadKind::Tcp, "1"),
            dispatch(Some(node(3)), PayloadKind::Tcp, "2"),
            dispatch(Some(node(3)), PayloadKind::Tcp, "3"),
        ]
    );
}

#[test]
fn tcp_workload_of_the_receiver_is_empty() {
    let outbox = enqueue_tcp_messages(&nodes(), 3, 3, 10).unwrap();
    assert!(outbox.messages.is_empty());
    assert!(outbox.events.is_empty());
}

#[test]
fn tcp_workload_of_no_messages_is_empty() {
    let outbox = enqueue_tcp_messages(&nodes(), 1, 3, 0).unwrap();
    assert!(outbox.messages.is_empty());
    assert!(outbox.events.is_empty());
}

#[test]
fn tcp_workload_for_a_stranger_fails() {
    assert_eq!(
        enqueue_tcp_messages(&nodes(), 1, 9, 3).unwrap_err(),
        EnqueueError::UnknownReceiver
    );
    assert_eq!(
        enqueue_tcp_messages(&nodes(), 9, 9, 3).unwrap_err(),
        EnqueueError::UnknownReceiver
    );
}

#[test]
fn best_effort_workload_logs_each_dispatch_before_its_delivery() {
    let mut ledger = ledger(3, 2);
    let outbox = enqueue_broadcast_messages(&mut ledger, &nodes(), 2, PayloadKind::Beb);
    let destinations: Vec<u32> = outbox.messages.iter().map(|m| m.destination.id).collect();
    assert_eq!(destinations, vec![1, 3, 1, 3]);
    assert_eq!(outbox.messages[0].payload, own_payload(2, 1, PayloadKind::Beb));
    assert_eq!(outbox.messages[1].payload, own_payload(2, 1, PayloadKind::Beb));
    assert_eq!(outbox.messages[2].payload, own_payload(2, 2, PayloadKind::Beb));
    assert_eq!(outbox.messages[3].payload, own_payload(2, 2, PayloadKind::Beb));
    assert_eq!(
        outbox.events,
        vec![
            dispatch(None, PayloadKind::Beb, "1"),
            delivery(2, PayloadKind::Beb, "1"),
            dispatch(None, PayloadKind::Beb, "2"),
            delivery(2, PayloadKind::Beb, "2"),
        ]
    );
}

#[test]
fn uniform_workload_is_dispatched_and_waits_for_the_quorum() {
    let mut ledger = ledger(3, 1);
    let outbox = enqueue_broadcast_messages(&mut ledger, &nodes(), 2, PayloadKind::Urb);
    assert_eq!(outbox.messages.len(), 4);
    assert_eq!(
        outbox.events,
        vec![dispatch(None, PayloadKind::Urb, "1"), dispatch(None, PayloadKind::Urb, "2")]
    );
    assert!(ledger.contains(1, 1, 1));
    assert!(ledger.contains(1, 1, 2));
    assert!(!ledger.contains(1, 1, 3));
}

#[test]
fn fifo_and_reliable_workloads_are_broadcast() {
    let mut fifo = ledger(1, 1);
    let outbox = enqueue_broadcast_messages(&mut fifo, &nodes(), 2, PayloadKind::Fifob);
    assert_eq!(
        outbox.events,
        vec![
            dispatch(None, PayloadKind::Fifob, "1"),
            delivery(1, PayloadKind::Fifob, "1"),
            dispatch(None, PayloadKind::Fifob, "2"),
            delivery(1, PayloadKind::Fifob, "2"),
        ]
    );
    let mut reliable = ledger(3, 1);
    let outbox = enqueue_broadcast_messages(&mut reliable, &nodes(), 1, PayloadKind::Rb);
    assert_eq!(outbox.messages.len(), 2);
    assert_eq!(
        outbox.events,
        vec![dispatch(None, PayloadKind::Rb, "1"), delivery(1, PayloadKind::Rb, "1")]
    );
}

#[test]
fn reliable_workload_does_not_send_again_what_was_seen() {
    let mut ledger = ledger(3, 1);
    ledger.mark_as_seen(&own_payload(1, 1, PayloadKind::Rb));
    let outbox = enqueue_broadcast_messages(&mut ledger, &nodes(), 2, PayloadKind::Rb);
    assert_eq!(outbox.messages.len(), 2);
    assert_eq!(outbox.messages[0].payload, own_payload(1, 2, PayloadKind::Rb));
    assert_eq!(
        outbox.events,
        vec![
            dispatch(None, PayloadKind::Rb, "1"),
            dispatch(None, PayloadKind::Rb, "2"),
            delivery(1, PayloadKind::Rb, "2"),
        ]
    );
}

#[test]
fn empty_workload_of_any_kind_queues_nothing() {
    let mut ledger = ledger(3, 1);
    for kind in [PayloadKind::Ack, PayloadKind::Tcp, PayloadKind::Beb, PayloadKind::Urb] {
        let outbox = enqueue_broadcast_messages(&mut ledger, &nodes(), 0, kind);
        assert!(outbox.messages.is_empty());
        assert!(outbox.events.is_empty());
    }
    assert!(!ledger.contains(1, 1, 1));
}

#[test]
fn workload_is_uniform_reliable() {
    let mut ledger = ledger(3, 1);
    let outbox = enqueue_messages(&mut ledger, &nodes(), 3);
    assert_eq!(outbox.messages.len(), 6);
    for message in &outbox.messages {
        assert_eq!(message.payload.kind, PayloadKind::Urb);
        assert_eq!(message.payload.owner_id, 1);
    }
    assert_eq!(
        outbox.events,
        vec![
            dispatch(None, PayloadKind::Urb, "1"),
            dispatch(None, PayloadKind::Urb, "2"),
            dispatch(None, PayloadKind::Urb, "3"),
        ]
    );
}
