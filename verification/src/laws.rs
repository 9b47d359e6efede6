//! What the ledger guarantees over every history of arrivals.
//!
//! A history is the sequence of payloads that a process takes in, each with
//! the sender it came from. [`run`] plays a history through the ledger from
//! its empty state and collects what is delivered on the way.

use crate::ledger::{
    identities_from,
    fifo_steps,
    lemma_empty_wf,
    lemma_insert_wf,
    lemma_try_deliver_run,
    majority,
    Ledger,
};
use crate::udp::{PayloadKind, PayloadView};
use vstd::prelude::*;

verus! {

/// One payload as the ledger takes it in.
pub ghost struct Arrival {
    pub sender_id: u32,
    pub payload: PayloadView,
}

/// The identity of the message that a payload carries.
pub open spec fn identity(payload: PayloadView) -> (u32, u32) {
    (payload.owner_id, payload.packet_uid)
}

/// The ledger after a history, and every payload delivered during it, in
/// the order of delivery.
pub open spec fn run(total_nodes: u32, arrivals: Seq<Arrival>) -> (Ledger, Seq<PayloadView>)
    decreases arrivals.len(),
{
    if arrivals.len() == 0 {
        (Ledger::empty(), Seq::empty())
    } else {
        let (ledger, log) = run(total_nodes, arrivals.drop_last());
        let (next, delivered) = ledger.insert(
            total_nodes,
            arrivals.last().sender_id,
            arrivals.last().payload,
        );
        (next, log + delivered)
    }
}

/// After any history the ledger is well formed.
pub proof fn law_ledger_stays_well_formed(total_nodes: u32, arrivals: Seq<Arrival>)
    ensures
        run(total_nodes, arrivals).0.wf(total_nodes),
    decreases arrivals.len(),
{
    if arrivals.len() == 0 {
        lemma_empty_wf(total_nodes);
    } else {
        law_ledger_stays_well_formed(total_nodes, arrivals.drop_last());
        lemma_insert_wf(
            run(total_nodes, arrivals.drop_last()).0,
            total_nodes,
            arrivals.last().sender_id,
            arrivals.last().payload,
        );
    }
}

/// What the last arrival of a history adds: the ledger before it, the
/// ledger with the arrival noted and filed, and the run of deliveries that
/// follows.
proof fn lemma_last_step(total_nodes: u32, arrivals: Seq<Arrival>) -> (step: (
    Ledger,
    Ledger,
    Seq<PayloadView>,
))
    requires
        arrivals.len() > 0,
    ensures
        ({
            let (before, filed, delivered) = step;
            let arrival = arrivals.last();
            let payload = arrival.payload;
            let (ledger, log) = run(total_nodes, arrivals);
            &&& before == run(total_nodes, arrivals.drop_last()).0
            &&& before.wf(total_nodes)
            &&& filed == before.record_ack(
                arrival.sender_id,
                payload.owner_id,
                payload.packet_uid,
            ).stash(payload)
            &&& filed.waiting_room_is_sound()
            &&& filed.delivered == before.delivered
            &&& filed.received_up_to == before.received_up_to
            &&& (ledger, delivered) == filed.try_deliver(
                total_nodes,
                payload.owner_id,
                payload.packet_uid,
            )
            &&& log == run(total_nodes, arrivals.drop_last()).1 + delivered
            &&& ledger.wf(total_nodes)
            &&& forall|i: int|
                0 <= i < delivered.len() ==> identity(#[trigger] delivered[i]) == (
                    payload.owner_id,
                    (payload.packet_uid + i) as u32,
                ) && !before.delivered.contains(identity(delivered[i]))
        }),
{
    let arrival = arrivals.last();
    let payload = arrival.payload;
    let before = run(total_nodes, arrivals.drop_last()).0;
    let filed = before.record_ack(arrival.sender_id, payload.owner_id, payload.packet_uid).stash(
        payload,
    );
    let delivered = filed.try_deliver(total_nodes, payload.owner_id, payload.packet_uid).1;
    law_ledger_stays_well_formed(total_nodes, arrivals.drop_last());
    law_ledger_stays_well_formed(total_nodes, arrivals);
    assert(filed.waiting_room_is_sound());
    lemma_try_deliver_run(filed, total_nodes, payload.owner_id, payload.packet_uid);
    assert forall|i: int| 0 <= i < delivered.len() implies identity(#[trigger] delivered[i]) == (
        payload.owner_id,
        (payload.packet_uid + i) as u32,
    ) && !before.delivered.contains(identity(delivered[i])) by {
        let key = (payload.owner_id, (payload.packet_uid + i) as u32);
        let run = filed.try_deliver(total_nodes, payload.owner_id, payload.packet_uid).1;
        assert(run[i] == delivered[i]);
        assert(filed.undelivered.contains_key(key));
    }
    (before, filed, delivered)
}

/// The log holds the delivered identities, and each of them once.
pub proof fn lemma_log_matches_delivered(total_nodes: u32, arrivals: Seq<Arrival>)
    ensures
        ({
            let (ledger, log) = run(total_nodes, arrivals);
            &&& forall|i: int|
                0 <= i < log.len() ==> ledger.delivered.contains(identity(#[trigger] log[i]))
            &&& forall|key: (u32, u32)| #[trigger]
                ledger.delivered.contains(key) ==> exists|i: int|
                    0 <= i < log.len() && identity(#[trigger] log[i]) == key
            &&& forall|i: int, j: int|
                0 <= i < j < log.len() ==> identity(#[trigger] log[i]) != identity(
                    #[trigger] log[j],
                )
        }),
    decreases arrivals.len(),
{
    if arrivals.len() > 0 {
        let (ledger, log) = run(total_nodes, arrivals);
        let earlier = run(total_nodes, arrivals.drop_last()).1;
        let payload = arrivals.last().payload;
        lemma_log_matches_delivered(total_nodes, arrivals.drop_last());
        let (before, filed, delivered) = lemma_last_step(total_nodes, arrivals);
        lemma_try_deliver_run(filed, total_nodes, payload.owner_id, payload.packet_uid);
        let fresh = identities_from(payload.owner_id, payload.packet_uid, delivered.len());
        assert(ledger.delivered == before.delivered + fresh);
        assert forall|i: int| 0 <= i < log.len() implies ledger.delivered.contains(
            identity(#[trigger] log[i]),
        ) by {
            if i < earlier.len() {
                assert(log[i] == earlier[i]);
            } else {
                assert(log[i] == delivered[i - earlier.len()]);
                assert(fresh.contains(identity(log[i])));
            }
        }
        assert forall|key: (u32, u32)| #[trigger] ledger.delivered.contains(key) implies exists|
            i: int,
        |
            0 <= i < log.len() && identity(#[trigger] log[i]) == key by {
            if before.delivered.contains(key) {
                let i = choose|i: int|
                    0 <= i < earlier.len() && identity(#[trigger] earlier[i]) == key;
                assert(log[i] == earlier[i]);
            } else {
                assert(fresh.contains(key));
                let i = earlier.len() + (key.1 - payload.packet_uid);
                assert(log[i] == delivered[key.1 - payload.packet_uid]);
            }
        }
        assert forall|i: int, j: int| 0 <= i < j < log.len() implies identity(#[trigger] log[i])
            != identity(#[trigger] log[j]) by {
            if j < earlier.len() {
                assert(log[i] == earlier[i] && log[j] == earlier[j]);
            } else if i < earlier.len() {
                assert(log[i] == earlier[i]);
                assert(log[j] == delivered[j - earlier.len()]);
                assert(before.delivered.contains(identity(earlier[i])));
            } else {
                assert(log[i] == delivered[i - earlier.len()]);
                assert(log[j] == delivered[j - earlier.len()]);
            }
        }
    }
}

/// Idempotent delivery: whatever arrives, and however often, no message is
/// delivered twice.
pub proof fn law_delivered_at_most_once(total_nodes: u32, arrivals: Seq<Arrival>, i: int, j: int)
    requires
        0 <= i < run(total_nodes, arrivals).1.len(),
        0 <= j < run(total_nodes, arrivals).1.len(),
        identity(run(total_nodes, arrivals).1[i]) == identity(run(total_nodes, arrivals).1[j]),
    ensures
        i == j,
{
    lemma_log_matches_delivered(total_nodes, arrivals);
    let log = run(total_nodes, arrivals).1;
    if i < j {
        assert(identity(log[i]) != identity(log[j]));
    } else if j < i {
        assert(identity(log[j]) != identity(log[i]));
    }
}

/// After its delivery a message changes nothing but the acknowledgments:
/// a further payload of it delivers nothing and leaves what waits and what
/// was delivered alone, and from a sender that had acknowledged it before it
/// leaves the whole ledger as it was.
pub proof fn law_insert_after_delivery(
    ledger: Ledger,
    total_nodes: u32,
    sender_id: u32,
    payload: PayloadView,
)
    requires
        ledger.wf(total_nodes),
        ledger.delivered.contains(identity(payload)),
    ensures
        ({
            let (next, delivered) = ledger.insert(total_nodes, sender_id, payload);
            &&& delivered == Seq::<PayloadView>::empty()
            &&& next.delivered == ledger.delivered
            &&& next.undelivered == ledger.undelivered
            &&& next.received_up_to == ledger.received_up_to
            &&& ledger.acked.contains((sender_id, payload.owner_id, payload.packet_uid)) ==> next
                == ledger
        }),
{
    let noted = ledger.record_ack(sender_id, payload.owner_id, payload.packet_uid);
    assert(noted.stash(payload) == noted);
    assert(!noted.undelivered.contains_key(identity(payload)));
}

/// `arrival` is an acknowledgment of message `(owner_id, packet_uid)` by
/// `sender_id`: any payload of that message from that sender is one.
pub open spec fn acknowledges(
    arrival: Arrival,
    sender_id: u32,
    owner_id: u32,
    packet_uid: u32,
) -> bool {
    arrival.sender_id == sender_id && identity(arrival.payload) == (owner_id, packet_uid)
}

/// The senders from which a message arrived at least once.
pub open spec fn senders_of(arrivals: Seq<Arrival>, owner_id: u32, packet_uid: u32) -> Set<u32> {
    Set::new(
        |sender_id: u32|
            exists|k: int|
                0 <= k < arrivals.len() && #[trigger] acknowledges(
                    arrivals[k],
                    sender_id,
                    owner_id,
                    packet_uid,
                ),
    )
}

/// The ledger holds an acknowledgment exactly for what arrived.
pub proof fn lemma_acked_is_what_arrived(total_nodes: u32, arrivals: Seq<Arrival>)
    ensures
        forall|sender_id: u32, owner_id: u32, packet_uid: u32|
            #![trigger run(total_nodes, arrivals).0.acked.contains((sender_id, owner_id, packet_uid))]
            run(total_nodes, arrivals).0.acked.contains((sender_id, owner_id, packet_uid))
                <==> senders_of(arrivals, owner_id, packet_uid).contains(sender_id),
    decreases arrivals.len(),
{
    let ledger = run(total_nodes, arrivals).0;
    if arrivals.len() > 0 {
        let arrival = arrivals.last();
        let payload = arrival.payload;
        let earlier = arrivals.drop_last();
        lemma_acked_is_what_arrived(total_nodes, earlier);
        let (before, filed, delivered) = lemma_last_step(total_nodes, arrivals);
        lemma_try_deliver_run(filed, total_nodes, payload.owner_id, payload.packet_uid);
        let noted = (arrival.sender_id, payload.owner_id, payload.packet_uid);
        assert(ledger.acked =~= before.acked.insert(noted));
        assert forall|sender_id: u32, owner_id: u32, packet_uid: u32|
            #![trigger ledger.acked.contains((sender_id, owner_id, packet_uid))]
            ledger.acked.contains((sender_id, owner_id, packet_uid)) <==> senders_of(
                arrivals,
                owner_id,
                packet_uid,
            ).contains(sender_id) by {
            let triple = (sender_id, owner_id, packet_uid);
            if ledger.acked.contains(triple) {
                if triple == noted {
                    assert(acknowledges(
                        arrivals[arrivals.len() - 1],
                        sender_id,
                        owner_id,
                        packet_uid,
                    ));
                } else {
                    assert(before.acked.contains(triple));
                    assert(senders_of(earlier, owner_id, packet_uid).contains(sender_id));
                    let k = choose|k: int|
                        0 <= k < earlier.len() && #[trigger] acknowledges(
                            earlier[k],
                            sender_id,
                            owner_id,
                            packet_uid,
                        );
                    assert(acknowledges(arrivals[k], sender_id, owner_id, packet_uid));
                }
            }
            if senders_of(arrivals, owner_id, packet_uid).contains(sender_id) {
                let k = choose|k: int|
                    0 <= k < arrivals.len() && #[trigger] acknowledges(
                        arrivals[k],
                        sender_id,
                        owner_id,
                        packet_uid,
                    );
                if k < earlier.len() {
                    assert(acknowledges(earlier[k], sender_id, owner_id, packet_uid));
                    assert(senders_of(earlier, owner_id, packet_uid).contains(sender_id));
                    assert(before.acked.contains(triple));
                }
            }
        }
    }
}

/// Deduplication of acknowledgments: after any history, the count of a
/// message is the number of distinct senders from which it arrived, however
/// often each of them sent it.
pub proof fn law_count_is_distinct_senders(
    total_nodes: u32,
    arrivals: Seq<Arrival>,
    owner_id: u32,
    packet_uid: u32,
)
    ensures
        run(total_nodes, arrivals).0.ackers(owner_id, packet_uid) == senders_of(
            arrivals,
            owner_id,
            packet_uid,
        ),
        senders_of(arrivals, owner_id, packet_uid).finite(),
        run(total_nodes, arrivals).0.ack_count(owner_id, packet_uid) == senders_of(
            arrivals,
            owner_id,
            packet_uid,
        ).len(),
{
    let ledger = run(total_nodes, arrivals).0;
    law_ledger_stays_well_formed(total_nodes, arrivals);
    lemma_acked_is_what_arrived(total_nodes, arrivals);
    assert(ledger.ackers(owner_id, packet_uid).finite());
    assert forall|sender_id: u32|
        ledger.ackers(owner_id, packet_uid).contains(sender_id) <==> senders_of(
            arrivals,
            owner_id,
            packet_uid,
        ).contains(sender_id) by {
        assert(ledger.acked.contains((sender_id, owner_id, packet_uid)) <==> senders_of(
            arrivals,
            owner_id,
            packet_uid,
        ).contains(sender_id));
    }
    assert(ledger.ackers(owner_id, packet_uid) =~= senders_of(arrivals, owner_id, packet_uid));
}

/// An acknowledgment, once noted, stays: no later arrival removes it.
pub proof fn law_acknowledgment_stays(
    total_nodes: u32,
    arrivals: Seq<Arrival>,
    later: Seq<Arrival>,
    sender_id: u32,
    owner_id: u32,
    packet_uid: u32,
)
    requires
        run(total_nodes, arrivals).0.acked.contains((sender_id, owner_id, packet_uid)),
    ensures
        run(total_nodes, arrivals + later).0.acked.contains((sender_id, owner_id, packet_uid)),
{
    lemma_acked_is_what_arrived(total_nodes, arrivals);
    lemma_acked_is_what_arrived(total_nodes, arrivals + later);
    assert(senders_of(arrivals, owner_id, packet_uid).contains(sender_id));
    let k = choose|k: int|
        0 <= k < arrivals.len() && #[trigger] acknowledges(
            arrivals[k],
            sender_id,
            owner_id,
            packet_uid,
        );
    assert(acknowledges((arrivals + later)[k], sender_id, owner_id, packet_uid));
    assert(senders_of(arrivals + later, owner_id, packet_uid).contains(sender_id));
}

/// Whether a delivery waits for a quorum.
pub open spec fn needs_quorum(kind: PayloadKind) -> bool {
    kind == PayloadKind::Urb || kind == PayloadKind::Fifob
}

/// No delivery before the quorum: after any history, every delivered
/// payload of a kind that waits for a quorum has been acknowledged by at
/// least a majority of distinct senders.
pub proof fn law_no_delivery_without_quorum(total_nodes: u32, arrivals: Seq<Arrival>, i: int)
    requires
        0 <= i < run(total_nodes, arrivals).1.len(),
        needs_quorum(run(total_nodes, arrivals).1[i].kind),
    ensures
        ({
            let (ledger, log) = run(total_nodes, arrivals);
            ledger.ackers(log[i].owner_id, log[i].packet_uid).len() >= majority(total_nodes)
        }),
    decreases arrivals.len(),
{
    let (ledger, log) = run(total_nodes, arrivals);
    if arrivals.len() > 0 {
        let payload = arrivals.last().payload;
        let earlier = run(total_nodes, arrivals.drop_last()).1;
        let (before, filed, delivered) = lemma_last_step(total_nodes, arrivals);
        lemma_try_deliver_run(filed, total_nodes, payload.owner_id, payload.packet_uid);
        let (owner_id, packet_uid) = identity(log[i]);
        assert(ledger.ackers(owner_id, packet_uid).len() == ledger.ack_count(owner_id, packet_uid));
        assert(before.ackers(owner_id, packet_uid).len() == before.ack_count(owner_id, packet_uid));
        if i < earlier.len() {
            assert(log[i] == earlier[i]);
            law_no_delivery_without_quorum(total_nodes, arrivals.drop_last(), i);
            assert(ledger.ack_count(owner_id, packet_uid) >= before.ack_count(
                owner_id,
                packet_uid,
            ));
        } else {
            let at = i - earlier.len();
            assert(log[i] == delivered[at]);
            assert(identity(delivered[at]) == (payload.owner_id, (payload.packet_uid + at) as u32));
        }
    }
}

/// Every payload of message `(owner_id, packet_uid)` in the history is a
/// uniform-reliable one or an acknowledgment.
pub open spec fn only_uniform(arrivals: Seq<Arrival>, owner_id: u32, packet_uid: u32) -> bool {
    forall|k: int|
        0 <= k < arrivals.len() && identity((#[trigger] arrivals[k]).payload) == (
            owner_id,
            packet_uid,
        ) ==> arrivals[k].payload.kind == PayloadKind::Ack || arrivals[k].payload.kind
            == PayloadKind::Urb
}

/// Some payload of message `(owner_id, packet_uid)` in the history is a
/// uniform-reliable one.
pub open spec fn uniform_arrived(arrivals: Seq<Arrival>, owner_id: u32, packet_uid: u32) -> bool {
    exists|k: int|
        0 <= k < arrivals.len() && identity((#[trigger] arrivals[k]).payload) == (
            owner_id,
            packet_uid,
        ) && arrivals[k].payload.kind == PayloadKind::Urb
}

/// Message `(owner_id, packet_uid)` is among the delivered ones.
pub open spec fn was_delivered(log: Seq<PayloadView>, owner_id: u32, packet_uid: u32) -> bool {
    exists|i: int| 0 <= i < log.len() && identity(#[trigger] log[i]) == (owner_id, packet_uid)
}

/// A message that arrived only as uniform-reliable waits as such, and has
/// been filed or delivered once it arrived.
proof fn lemma_uniform_message(
    total_nodes: u32,
    arrivals: Seq<Arrival>,
    owner_id: u32,
    packet_uid: u32,
)
    requires
        only_uniform(arrivals, owner_id, packet_uid),
    ensures
        ({
            let (ledger, log) = run(total_nodes, arrivals);
            let key = (owner_id, packet_uid);
            &&& ledger.undelivered.contains_key(key) ==> ledger.undelivered[key].kind
                == PayloadKind::Urb
            &&& uniform_arrived(arrivals, owner_id, packet_uid)
                ==> ledger.undelivered.contains_key(key) || ledger.delivered.contains(key)
            &&& forall|i: int|
                0 <= i < log.len() && identity(#[trigger] log[i]) == key ==> log[i].kind
                    == PayloadKind::Urb
        }),
    decreases arrivals.len(),
{
    let (ledger, log) = run(total_nodes, arrivals);
    let key = (owner_id, packet_uid);
    if arrivals.len() > 0 {
        let arrival = arrivals.last();
        let payload = arrival.payload;
        let earlier = arrivals.drop_last();
        let earlier_log = run(total_nodes, earlier).1;
        assert forall|k: int|
            0 <= k < earlier.len() && identity((#[trigger] earlier[k]).payload)
                == key implies earlier[k].payload.kind == PayloadKind::Ack
            || earlier[k].payload.kind == PayloadKind::Urb by {
            assert(earlier[k] == arrivals[k]);
        }
        lemma_uniform_message(total_nodes, earlier, owner_id, packet_uid);
        let (before, filed, delivered) = lemma_last_step(total_nodes, arrivals);
        lemma_try_deliver_run(filed, total_nodes, payload.owner_id, payload.packet_uid);
        let gone = identities_from(payload.owner_id, payload.packet_uid, delivered.len());
        assert(ledger.undelivered == filed.undelivered.remove_keys(gone));
        assert(ledger.delivered == filed.delivered + gone);
        assert(arrivals[arrivals.len() - 1] == arrival);
        if uniform_arrived(arrivals, owner_id, packet_uid) {
            let k = choose|k: int|
                0 <= k < arrivals.len() && identity((#[trigger] arrivals[k]).payload) == key
                    && arrivals[k].payload.kind == PayloadKind::Urb;
            if k < earlier.len() {
                assert(earlier[k] == arrivals[k]);
                assert(uniform_arrived(earlier, owner_id, packet_uid));
            }
            assert(filed.undelivered.contains_key(key) || filed.delivered.contains(key));
        }
        assert forall|i: int|
            0 <= i < log.len() && identity(#[trigger] log[i]) == key implies log[i].kind
            == PayloadKind::Urb by {
            if i < earlier_log.len() {
                assert(log[i] == earlier_log[i]);
            } else {
                let at = i - earlier_log.len();
                assert(log[i] == delivered[at]);
                assert(identity(delivered[at]) == (
                    payload.owner_id,
                    (payload.packet_uid + at) as u32,
                ));
            }
        }
    }
}

/// Quorum correctness: a uniform-reliable message that has arrived is
/// delivered if and only if at least a majority of distinct senders have
/// acknowledged it. This holds of a message that arrives under one kind
/// only, as every message of a well-behaved system does.
pub proof fn law_uniform_delivery_iff_quorum(
    total_nodes: u32,
    arrivals: Seq<Arrival>,
    owner_id: u32,
    packet_uid: u32,
)
    requires
        uniform_arrived(arrivals, owner_id, packet_uid),
        only_uniform(arrivals, owner_id, packet_uid),
    ensures
        ({
            let (ledger, log) = run(total_nodes, arrivals);
            was_delivered(log, owner_id, packet_uid) <==> ledger.ackers(owner_id, packet_uid).len()
                >= majority(total_nodes)
        }),
{
    let (ledger, log) = run(total_nodes, arrivals);
    let key = (owner_id, packet_uid);
    law_ledger_stays_well_formed(total_nodes, arrivals);
    lemma_uniform_message(total_nodes, arrivals, owner_id, packet_uid);
    lemma_log_matches_delivered(total_nodes, arrivals);
    assert(ledger.ackers(owner_id, packet_uid).len() == ledger.ack_count(owner_id, packet_uid));
    if was_delivered(log, owner_id, packet_uid) {
        let i = choose|i: int| 0 <= i < log.len() && identity(#[trigger] log[i]) == key;
        law_no_delivery_without_quorum(total_nodes, arrivals, i);
    }
    if ledger.has_quorum(total_nodes, owner_id, packet_uid) {
        if ledger.undelivered.contains_key(key) {
            assert(ledger.deliverable(total_nodes, key.0, key.1));
        }
        assert(ledger.delivered.contains(key));
    }
}

/// The FIFO deliveries of one owner.
pub open spec fn fifo_of(owner_id: u32) -> spec_fn(PayloadView) -> bool {
    |payload: PayloadView| payload.kind == PayloadKind::Fifob && payload.owner_id == owner_id
}

/// A sequence whose every element passes a filter passes it whole.
proof fn lemma_filter_keeps_all<A>(items: Seq<A>, keep: spec_fn(A) -> bool)
    requires
        forall|i: int| 0 <= i < items.len() ==> keep(#[trigger] items[i]),
    ensures
        items.filter(keep) == items,
    decreases items.len(),
{
    reveal(Seq::filter);
    if items.len() > 0 {
        lemma_filter_keeps_all(items.drop_last(), keep);
        assert(items.drop_last().push(items.last()) =~= items);
    }
}

/// A sequence none of whose elements passes a filter leaves nothing.
proof fn lemma_filter_drops_all<A>(items: Seq<A>, keep: spec_fn(A) -> bool)
    requires
        forall|i: int| 0 <= i < items.len() ==> !keep(#[trigger] items[i]),
    ensures
        items.filter(keep) == Seq::<A>::empty(),
    decreases items.len(),
{
    reveal(Seq::filter);
    if items.len() > 0 {
        lemma_filter_drops_all(items.drop_last(), keep);
    }
}

/// The FIFO deliveries of `owner_id` in one run of deliveries: none if the
/// run is of another owner; otherwise they carry consecutive sequence
/// numbers from the owner's cursor on, and the cursor moves past them.
proof fn lemma_fifo_part_of_run(
    filed: Ledger,
    total_nodes: u32,
    run_owner: u32,
    packet_uid: u32,
    owner_id: u32,
)
    requires
        filed.waiting_room_is_sound(),
    ensures
        ({
            let (next, delivered) = filed.try_deliver(total_nodes, run_owner, packet_uid);
            let fifo = delivered.filter(fifo_of(owner_id));
            &&& next.next_expected(owner_id) == filed.next_expected(owner_id) + fifo.len()
            &&& forall|i: int|
                0 <= i < fifo.len() ==> (#[trigger] fifo[i]).packet_uid == filed.next_expected(
                    owner_id,
                ) + i
        }),
{
    let (next, delivered) = filed.try_deliver(total_nodes, run_owner, packet_uid);
    let keep = fifo_of(owner_id);
    let fifo = delivered.filter(keep);
    lemma_try_deliver_run(filed, total_nodes, run_owner, packet_uid);
    assert forall|i: int| 0 <= i < delivered.len() implies (#[trigger] delivered[i]).owner_id
        == run_owner && delivered[i].packet_uid == packet_uid + i by {
        assert(filed.undelivered.contains_key((run_owner, (packet_uid + i) as u32)));
    }
    let steps = fifo_steps(delivered);
    if run_owner != owner_id {
        lemma_filter_drops_all(delivered, keep);
    } else if steps == delivered.len() {
        lemma_filter_keeps_all(delivered, keep);
    } else {
        let front = delivered.drop_last();
        assert(!keep(delivered.last()));
        assert(delivered.filter(keep) == front.filter(keep)) by {
            reveal(Seq::filter);
        }
        lemma_filter_keeps_all(front, keep);
        assert forall|i: int| 0 <= i < fifo.len() implies (#[trigger] fifo[i]).packet_uid
            == filed.next_expected(owner_id) + i by {
            assert(fifo[i] == delivered[i]);
        }
    }
}

/// FIFO order: after any history, the FIFO deliveries of any one owner
/// carry the sequence numbers 1, 2, 3, ... in this order, with no gap, and
/// the owner's cursor stands behind the last of them.
pub proof fn law_fifo_order(total_nodes: u32, arrivals: Seq<Arrival>, owner_id: u32)
    ensures
        ({
            let (ledger, log) = run(total_nodes, arrivals);
            let fifo = log.filter(fifo_of(owner_id));
            &&& forall|i: int| 0 <= i < fifo.len() ==> (#[trigger] fifo[i]).packet_uid == i + 1
            &&& ledger.next_expected(owner_id) == fifo.len() + 1
        }),
    decreases arrivals.len(),
{
    let (ledger, log) = run(total_nodes, arrivals);
    let keep = fifo_of(owner_id);
    let fifo = log.filter(keep);
    if arrivals.len() == 0 {
        assert(fifo.len() == 0) by {
            reveal(Seq::filter);
        }
    } else {
        let payload = arrivals.last().payload;
        let earlier = run(total_nodes, arrivals.drop_last()).1;
        law_fifo_order(total_nodes, arrivals.drop_last(), owner_id);
        let (before, filed, delivered) = lemma_last_step(total_nodes, arrivals);
        lemma_fifo_part_of_run(
            filed,
            total_nodes,
            payload.owner_id,
            payload.packet_uid,
            owner_id,
        );
        Seq::filter_distributes_over_add(earlier, delivered, keep);
        let sooner = earlier.filter(keep);
        let fresh = delivered.filter(keep);
        assert(fifo == sooner + fresh);
        assert(filed.next_expected(owner_id) == sooner.len() + 1);
        assert forall|i: int| 0 <= i < fifo.len() implies (#[trigger] fifo[i]).packet_uid == i
            + 1 by {
            if i < sooner.len() {
                assert(fifo[i] == sooner[i]);
            } else {
                assert(fifo[i] == fresh[i - sooner.len()]);
            }
        }
    }
}

} // verus!
