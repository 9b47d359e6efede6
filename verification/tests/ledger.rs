use broadcast_stack::delivered::{AccessDeliveredSet, DeliveredSet, LogEvent};
use broadcast_stack::udp::{Payload, PayloadKind};

fn payload(owner_id: u32, packet_uid: u32, kind: PayloadKind, text: &str) -> Payload {
    Payload {
        owner_id,
        sender_id: owner_id,
        packet_uid,
        kind,
        vector_clock: vec![0],
        buffer: text.as_bytes().to_vec(),
    }
}

fn ack(owner_id: u32, packet_uid: u32, text: &str) -> Payload {
    payload(owner_id, packet_uid, PayloadKind::Ack, text)
}

fn delivery(owner_id: u32, kind: PayloadKind, text: &str) -> LogEvent {
    LogEvent::Delivery { owner_id, kind, contents: text.as_bytes().to_vec() }
}

fn ledger(total_nodes: u32, current_node_id: u32) -> AccessDeliveredSet {
    AccessDeliveredSet::new(DeliveredSet::new(), total_nodes, current_node_id)
}

#[test]
fn best_effort_payload_is_delivered_on_first_receipt() {
    let mut ledger = ledger(3, 1);
    let events = ledger.insert(2, &payload(2, 1, PayloadKind::Beb, "1"));
    assert_eq!(events, vec![delivery(2, PayloadKind::Beb, "1")]);
    assert!(ledger.contains(2, 2, 1));
    assert!(!ledger.contains(1, 2, 1));
}

#[test]
fn point_to_point_and_reliable_payloads_are_delivered_on_first_receipt() {
    let mut ledger = ledger(5, 1);
    assert_eq!(
        ledger.insert(2, &payload(2, 1, PayloadKind::Tcp, "a")),
        vec![delivery(2, PayloadKind::Tcp, "a")]
    );
    assert_eq!(
        ledger.insert(3, &payload(3, 1, PayloadKind::Rb, "b")),
        vec![delivery(3, PayloadKind::Rb, "b")]
    );
}

#[test]
fn acknowledgment_alone_delivers_nothing() {
    let mut ledger = ledger(1, 1);
    assert_eq!(ledger.insert(2, &ack(7, 1, "x")), vec![]);
    assert_eq!(ledger.insert(3, &ack(7, 1, "x")), vec![]);
    assert!(ledger.contains(2, 7, 1));
    assert!(ledger.contains(3, 7, 1));
}

#[test]
fn repeated_inserts_deliver_once() {
    let mut ledger = ledger(3, 1);
    let message = payload(2, 1, PayloadKind::Beb, "once");
    assert_eq!(ledger.insert(2, &message).len(), 1);
    assert_eq!(ledger.insert(2, &message), vec![]);
    assert_eq!(ledger.insert(3, &message), vec![]);
    assert_eq!(ledger.insert(1, &message), vec![]);
    assert_eq!(ledger.mark_as_seen(&message), vec![]);
}

#[test]
fn repeated_inserts_after_uniform_delivery_deliver_nothing() {
    let mut ledger = ledger(3, 1);
    let message = payload(2, 4, PayloadKind::Urb, "u");
    assert_eq!(ledger.insert(2, &message), vec![]);
    assert_eq!(ledger.insert(3, &message), vec![delivery(2, PayloadKind::Urb, "u")]);
    assert_eq!(ledger.insert(3, &message), vec![]);
    assert_eq!(ledger.insert(1, &message), vec![]);
    assert_eq!(ledger.insert(2, &ack(2, 4, "u")), vec![]);
}

#[test]
fn uniform_payload_waits_for_majority_of_five() {
    let mut ledger = ledger(5, 1);
    let message = payload(9, 1, PayloadKind::Urb, "m");
    assert_eq!(ledger.insert(9, &message), vec![]);
    assert_eq!(ledger.insert(2, &ack(9, 1, "m")), vec![]);
    assert_eq!(ledger.insert(3, &ack(9, 1, "m")), vec![delivery(9, PayloadKind::Urb, "m")]);
    assert_eq!(ledger.insert(4, &ack(9, 1, "m")), vec![]);
}

#[test]
fn majority_of_four_is_three() {
    let mut ledger = ledger(4, 1);
    let message = payload(9, 1, PayloadKind::Urb, "m");
    assert_eq!(ledger.insert(9, &message), vec![]);
    assert_eq!(ledger.insert(2, &ack(9, 1, "m")), vec![]);
    assert_eq!(ledger.insert(3, &ack(9, 1, "m")), vec![delivery(9, PayloadKind::Urb, "m")]);
}

#[test]
fn majority_of_one_and_of_none_is_one() {
    let mut alone = ledger(1, 1);
    assert_eq!(
        alone.mark_as_seen(&payload(1, 1, PayloadKind::Urb, "solo")),
        vec![delivery(1, PayloadKind::Urb, "solo")]
    );
    let mut nobody = ledger(0, 1);
    assert_eq!(
        nobody.insert(5, &payload(5, 1, PayloadKind::Urb, "void")),
        vec![delivery(5, PayloadKind::Urb, "void")]
    );
}

#[test]
fn majority_of_the_largest_system() {
    let mut ledger = ledger(u32::MAX, 1);
    let message = payload(2, 1, PayloadKind::Urb, "big");
    assert_eq!(ledger.insert(2, &message), vec![]);
    for sender in 3..100 {
        assert_eq!(ledger.insert(sender, &ack(2, 1, "big")), vec![]);
    }
}

#[test]
fn one_sender_counts_once_however_often_it_acknowledges() {
    let mut ledger = ledger(3, 1);
    let message = payload(1, 1, PayloadKind::Urb, "d");
    assert_eq!(ledger.mark_as_seen(&message), vec![]);
    assert_eq!(ledger.mark_as_seen(&message), vec![]);
    assert_eq!(ledger.insert(1, &ack(1, 1, "d")), vec![]);
    assert_eq!(ledger.insert(1, &message), vec![]);
    assert_eq!(ledger.insert(2, &ack(1, 1, "d")), vec![delivery(1, PayloadKind::Urb, "d")]);
}

#[test]
fn relays_by_two_senders_count_twice() {
    let mut ledger = ledger(5, 1);
    let message = payload(9, 3, PayloadKind::Urb, "r");
    assert_eq!(ledger.insert(2, &message), vec![]);
    assert_eq!(ledger.insert(2, &message), vec![]);
    assert_eq!(ledger.insert(3, &message), vec![]);
    assert_eq!(ledger.insert(3, &message), vec![]);
    assert_eq!(ledger.insert(2, &message), vec![]);
    assert_eq!(ledger.insert(4, &message), vec![delivery(9, PayloadKind::Urb, "r")]);
}

#[test]
fn acknowledgments_before_the_payload_count_for_it() {
    let mut ledger = ledger(3, 1);
    assert_eq!(ledger.insert(2, &ack(4, 1, "late")), vec![]);
    assert_eq!(ledger.insert(3, &ack(4, 1, "late")), vec![]);
    assert_eq!(
        ledger.insert(2, &payload(4, 1, PayloadKind::Urb, "late")),
        vec![delivery(4, PayloadKind::Urb, "late")]
    );
}

#[test]
fn uniform_broadcast_among_three_delivers_on_first_peer_acknowledgment() {
    let node_a = 1;
    let mut ledger = ledger(3, node_a);
    let message = payload(node_a, 1, PayloadKind::Urb, "1");
    assert_eq!(ledger.mark_as_seen(&message), vec![]);
    assert!(ledger.was_seen(&message));
    let mut from_b = ack(node_a, 1, "1");
    from_b.sender_id = 2;
    assert_eq!(ledger.insert(2, &from_b), vec![delivery(node_a, PayloadKind::Urb, "1")]);
    assert!(!ledger.contains(3, node_a, 1));
    let mut from_c = ack(node_a, 1, "1");
    from_c.sender_id = 3;
    assert_eq!(ledger.insert(3, &from_c), vec![]);
}

#[test]
fn fifo_payload_waits_for_its_predecessor_and_follows_it_at_once() {
    let mut ledger = ledger(3, 1);
    let first = payload(2, 1, PayloadKind::Fifob, "first");
    let second = payload(2, 2, PayloadKind::Fifob, "second");
    assert_eq!(ledger.insert(2, &second), vec![]);
    assert_eq!(ledger.insert(3, &ack(2, 2, "second")), vec![]);
    assert_eq!(ledger.insert(2, &first), vec![]);
    assert_eq!(
        ledger.insert(3, &ack(2, 1, "first")),
        vec![delivery(2, PayloadKind::Fifob, "first"), delivery(2, PayloadKind::Fifob, "second")]
    );
}

#[test]
fn fifo_payloads_in_reverse_are_delivered_in_order() {
    let mut ledger = ledger(1, 1);
    let texts = ["1", "2", "3", "4"];
    for uid in [4u32, 3, 2] {
        let message = payload(7, uid, PayloadKind::Fifob, texts[uid as usize - 1]);
        assert_eq!(ledger.insert(7, &message), vec![]);
    }
    let events = ledger.insert(7, &payload(7, 1, PayloadKind::Fifob, "1"));
    assert_eq!(
        events,
        vec![
            delivery(7, PayloadKind::Fifob, "1"),
            delivery(7, PayloadKind::Fifob, "2"),
            delivery(7, PayloadKind::Fifob, "3"),
            delivery(7, PayloadKind::Fifob, "4"),
        ]
    );
}

#[test]
fn fifo_drain_stops_at_a_gap_and_at_a_missing_quorum() {
    let mut ledger = ledger(3, 1);
    assert_eq!(ledger.insert(2, &payload(5, 2, PayloadKind::Fifob, "2")), vec![]);
    assert_eq!(ledger.insert(3, &ack(5, 2, "2")), vec![]);
    assert_eq!(ledger.insert(2, &payload(5, 3, PayloadKind::Fifob, "3")), vec![]);
    assert_eq!(ledger.insert(2, &payload(5, 5, PayloadKind::Fifob, "5")), vec![]);
    assert_eq!(ledger.insert(3, &ack(5, 5, "5")), vec![]);
    assert_eq!(ledger.insert(2, &payload(5, 1, PayloadKind::Fifob, "1")), vec![]);
    assert_eq!(
        ledger.insert(3, &ack(5, 1, "1")),
        vec![delivery(5, PayloadKind::Fifob, "1"), delivery(5, PayloadKind::Fifob, "2")]
    );
    assert_eq!(ledger.insert(3, &ack(5, 3, "3")), vec![delivery(5, PayloadKind::Fifob, "3")]);
    assert_eq!(ledger.insert(2, &payload(5, 4, PayloadKind::Fifob, "4")), vec![]);
    assert_eq!(
        ledger.insert(3, &ack(5, 4, "4")),
        vec![delivery(5, PayloadKind::Fifob, "4"), delivery(5, PayloadKind::Fifob, "5")]
    );
}

#[test]
fn fifo_order_is_kept_for_each_owner_apart() {
    let mut ledger = ledger(1, 1);
    assert_eq!(ledger.insert(2, &payload(2, 2, PayloadKind::Fifob, "b2")), vec![]);
    assert_eq!(
        ledger.insert(3, &payload(3, 1, PayloadKind::Fifob, "c1")),
        vec![delivery(3, PayloadKind::Fifob, "c1")]
    );
    assert_eq!(
        ledger.insert(2, &payload(2, 1, PayloadKind::Fifob, "b1")),
        vec![delivery(2, PayloadKind::Fifob, "b1"), delivery(2, PayloadKind::Fifob, "b2")]
    );
}

#[test]
fn fifo_payload_number_zero_is_never_due() {
    let mut ledger = ledger(1, 1);
    assert_eq!(ledger.insert(2, &payload(2, 0, PayloadKind::Fifob, "zero")), vec![]);
    assert_eq!(
        ledger.insert(2, &payload(2, 1, PayloadKind::Fifob, "one")),
        vec![delivery(2, PayloadKind::Fifob, "one")]
    );
}

#[test]
fn contains_tells_senders_owners_and_numbers_apart() {
    let mut ledger = ledger(3, 1);
    assert!(!ledger.contains(2, 3, 4));
    ledger.insert(2, &ack(3, 4, ""));
    assert!(ledger.contains(2, 3, 4));
    assert!(!ledger.contains(3, 2, 4));
    assert!(!ledger.contains(2, 4, 3));
    assert!(!ledger.contains(2, 3, 5));
    assert!(!ledger.contains(4, 3, 4));
}

#[test]
fn mark_as_seen_records_the_process_itself() {
    let mut ledger = ledger(3, 6);
    let message = payload(6, 1, PayloadKind::Urb, "mine");
    assert!(!ledger.was_seen(&message));
    assert_eq!(ledger.mark_as_seen(&message), vec![]);
    assert!(ledger.was_seen(&message));
    assert!(ledger.contains(6, 6, 1));
    assert!(!ledger.contains(1, 6, 1));
    assert_eq!(ledger.current_node_id(), 6);
    assert_eq!(ledger.total_nodes(), 3);
}

#[test]
fn delivery_carries_the_bytes_of_the_buffer_as_they_are() {
    let mut ledger = ledger(1, 1);
    let mut message = payload(2, 1, PayloadKind::Beb, "");
    message.buffer = vec![0xff, 0x00, 0xc3];
    assert_eq!(
        ledger.insert(2, &message),
        vec![LogEvent::Delivery {
            owner_id: 2,
            kind: PayloadKind::Beb,
            contents: vec![0xff, 0x00, 0xc3]
        }]
    );
}

#[test]
fn later_payload_of_a_waiting_message_replaces_the_earlier() {
    let mut ledger = ledger(3, 1);
    assert_eq!(ledger.insert(2, &payload(2, 1, PayloadKind::Urb, "old")), vec![]);
    assert_eq!(
        ledger.insert(3, &payload(2, 1, PayloadKind::Urb, "new")),
        vec![delivery(2, PayloadKind::Urb, "new")]
    );
}

/// A small deterministic generator of numbers.
fn next_number(state: &mut u64) -> u32 {
    *state = state.wrapping_mul(6364136223846793005).wrapping_add(1442695040888963407);
    (*state >> 33) as u32
}

#[test]
fn long_history_delivers_each_message_once_and_fifo_in_order() {
    let kinds = [
        PayloadKind::Ack,
        PayloadKind::Tcp,
        PayloadKind::Beb,
        PayloadKind::Rb,
        PayloadKind::Urb,
        PayloadKind::Fifob,
    ];
    let mut state = 7u64;
    let mut ledger = ledger(5, 1);
    let mut seen: Vec<(u32, Vec<u8>)> = Vec::new();
    let mut fifo_next = [1u32; 4];
    for _ in 0..20000 {
        let sender = next_number(&mut state) % 6;
        let owner = next_number(&mut state) % 4;
        let uid = next_number(&mut state) % 12;
        // One kind for each owner, so that a message arrives under one kind only.
        let kind = if next_number(&mut state) % 2 == 0 {
            PayloadKind::Ack
        } else {
            kinds[2 + owner as usize]
        };
        let text = format!("{}-{}", owner, uid);
        let mut message = payload(owner, uid, kind, &text);
        message.sender_id = sender;
        for event in ledger.insert(sender, &message) {
            match event {
                LogEvent::Delivery { owner_id, kind, contents } => {
                    assert_eq!(owner_id, owner);
                    assert_eq!(kind, kinds[2 + owner as usize]);
                    assert!(!seen.contains(&(owner_id, contents.clone())));
                    if kind == PayloadKind::Fifob {
                        let expected = format!("{}-{}", owner_id, fifo_next[owner_id as usize]);
                        assert_eq!(contents, expected.into_bytes());
                        fifo_next[owner_id as usize] += 1;
                    }
                    seen.push((owner_id, contents));
                }
                LogEvent::Dispatch { .. } => panic!("the ledger logs deliveries only"),
            }
        }
    }
    // Best-effort and reliable messages 0..12 of owners 0 and 1, the
    // uniform ones of owner 2, and the FIFO ones 1..12 of owner 3.
    assert_eq!(seen.len(), 12 + 12 + 12 + 11);
    assert_eq!(fifo_next[3], 12);
}

#[test]
fn message_delivered_under_one_kind_is_not_delivered_under_another() {
    let mut ledger = ledger(1, 1);
    assert_eq!(
        ledger.insert(2, &payload(2, 1, PayloadKind::Beb, "first")),
        vec![delivery(2, PayloadKind::Beb, "first")]
    );
    // The delivery condition of the FIFO payload holds, and nothing waits.
    assert_eq!(ledger.insert(3, &payload(2, 1, PayloadKind::Fifob, "again")), vec![]);
    assert_eq!(ledger.insert(3, &ack(2, 1, "again")), vec![]);
    assert!(ledger.contains(3, 2, 1));
    // The cursor of the owner has not moved.
    assert_eq!(ledger.insert(2, &payload(2, 2, PayloadKind::Fifob, "second")), vec![]);
}
