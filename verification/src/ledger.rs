//! The delivery ledger as a mathematical state machine.
//!
//! [`Ledger`] is the value that the executable ledger stands for, and
//! [`Ledger::insert`] is the one transition that it makes. Everything the
//! ledger promises is stated over these definitions.

use vstd::prelude::*;
use crate::udp::{PayloadKind, PayloadView};

verus! {

/// The number of distinct acknowledging senders that forms a quorum among
/// `total_nodes` processes.
pub open spec fn majority(total_nodes: u32) -> nat {
    (total_nodes / 2 + 1) as nat
}

/// The state of the delivery ledger of one process.
#[verifier::ext_equal]
pub ghost struct Ledger {
    /// `(sender, owner, uid)`: `sender` has acknowledged message `(owner, uid)`.
    pub acked: Set<(u32, u32, u32)>,
    /// How many acknowledgments count for message `(owner, uid)`.
    pub acked_counter: Map<(u32, u32), nat>,
    /// The next sequence number that FIFO delivery expects from an owner.
    pub received_up_to: Map<u32, nat>,
    /// Messages that wait for their delivery condition, by `(owner, uid)`.
    pub undelivered: Map<(u32, u32), PayloadView>,
    /// Messages that have been delivered, by `(owner, uid)`.
    pub delivered: Set<(u32, u32)>,
}

impl Ledger {
    /// The ledger of a process that has seen nothing yet.
    pub open spec fn empty() -> Ledger {
        Ledger {
            acked: Set::empty(),
            acked_counter: Map::empty(),
            received_up_to: Map::empty(),
            undelivered: Map::empty(),
            delivered: Set::empty(),
        }
    }

    /// The acknowledgment count of a message; zero until the first one.
    pub open spec fn ack_count(self, owner_id: u32, packet_uid: u32) -> nat {
        if self.acked_counter.contains_key((owner_id, packet_uid)) {
            self.acked_counter[(owner_id, packet_uid)]
        } else {
            0
        }
    }

    /// The FIFO cursor of an owner; it starts at one.
    pub open spec fn next_expected(self, owner_id: u32) -> nat {
        if self.received_up_to.contains_key(owner_id) {
            self.received_up_to[owner_id]
        } else {
            1
        }
    }

    /// The senders that have acknowledged a message.
    pub open spec fn ackers(self, owner_id: u32, packet_uid: u32) -> Set<u32> {
        Set::new(|sender_id: u32| self.acked.contains((sender_id, owner_id, packet_uid)))
    }

    /// Whether a quorum of acknowledgments is counted for a message.
    pub open spec fn has_quorum(self, total_nodes: u32, owner_id: u32, packet_uid: u32) -> bool {
        self.ack_count(owner_id, packet_uid) >= majority(total_nodes)
    }

    /// The delivery condition of each kind of payload.
    pub open spec fn can_deliver(
        self,
        total_nodes: u32,
        kind: PayloadKind,
        owner_id: u32,
        packet_uid: u32,
    ) -> bool {
        match kind {
            PayloadKind::Ack => false,
            PayloadKind::Tcp | PayloadKind::Beb | PayloadKind::Rb => true,
            PayloadKind::Urb => self.has_quorum(total_nodes, owner_id, packet_uid),
            PayloadKind::Fifob => self.has_quorum(total_nodes, owner_id, packet_uid)
                && packet_uid == self.next_expected(owner_id),
        }
    }

    /// A message waits in the ledger and its delivery condition holds.
    pub open spec fn deliverable(self, total_nodes: u32, owner_id: u32, packet_uid: u32) -> bool {
        &&& self.undelivered.contains_key((owner_id, packet_uid))
        &&& self.can_deliver(
            total_nodes,
            self.undelivered[(owner_id, packet_uid)].kind,
            owner_id,
            packet_uid,
        )
    }

    /// Records that `sender_id` acknowledged `(owner_id, packet_uid)`. The
    /// count rises only the first time a sender does so.
    pub open spec fn record_ack(self, sender_id: u32, owner_id: u32, packet_uid: u32) -> Ledger {
        if self.acked.contains((sender_id, owner_id, packet_uid)) {
            self
        } else {
            Ledger {
                acked: self.acked.insert((sender_id, owner_id, packet_uid)),
                acked_counter: self.acked_counter.insert(
                    (owner_id, packet_uid),
                    self.ack_count(owner_id, packet_uid) + 1,
                ),
                ..self
            }
        }
    }

    /// Files a payload to wait for delivery. An acknowledgment carries
    /// nothing to deliver, and a delivered message is not filed again.
    pub open spec fn stash(self, payload: PayloadView) -> Ledger {
        if payload.kind == PayloadKind::Ack || self.delivered.contains(
            (payload.owner_id, payload.packet_uid),
        ) {
            self
        } else {
            Ledger {
                undelivered: self.undelivered.insert(
                    (payload.owner_id, payload.packet_uid),
                    payload,
                ),
                ..self
            }
        }
    }

    /// Moves a waiting message among the delivered ones.
    pub open spec fn mark_delivered(self, owner_id: u32, packet_uid: u32) -> Ledger {
        Ledger {
            undelivered: self.undelivered.remove((owner_id, packet_uid)),
            delivered: self.delivered.insert((owner_id, packet_uid)),
            ..self
        }
    }

    /// Moves the FIFO cursor of `owner_id` past `packet_uid`.
    pub open spec fn advance(self, owner_id: u32, packet_uid: u32) -> Ledger {
        Ledger {
            received_up_to: self.received_up_to.insert(owner_id, (packet_uid + 1) as nat),
            ..self
        }
    }

    /// Delivers message `(owner_id, packet_uid)` if it waits and its
    /// condition holds. A FIFO delivery moves the cursor and goes on with the
    /// successor, so one call drains every message that became due. Returns
    /// the new ledger and the payloads delivered, in order.
    pub open spec fn try_deliver(self, total_nodes: u32, owner_id: u32, packet_uid: u32) -> (
        Ledger,
        Seq<PayloadView>,
    )
        decreases u32::MAX - packet_uid,
    {
        if !self.deliverable(total_nodes, owner_id, packet_uid) {
            (self, Seq::empty())
        } else {
            let payload = self.undelivered[(owner_id, packet_uid)];
            let marked = self.mark_delivered(owner_id, packet_uid);
            if payload.kind != PayloadKind::Fifob {
                (marked, seq![payload])
            } else if packet_uid == u32::MAX {
                (marked.advance(owner_id, packet_uid), seq![payload])
            } else {
                let (last, more) = marked.advance(owner_id, packet_uid).try_deliver(
                    total_nodes,
                    owner_id,
                    (packet_uid + 1) as u32,
                );
                (last, seq![payload] + more)
            }
        }
    }

    /// The ledger's one transition: `payload` arrived from `sender_id`.
    pub open spec fn insert(self, total_nodes: u32, sender_id: u32, payload: PayloadView) -> (
        Ledger,
        Seq<PayloadView>,
    ) {
        self.record_ack(sender_id, payload.owner_id, payload.packet_uid).stash(payload).try_deliver(
            total_nodes,
            payload.owner_id,
            payload.packet_uid,
        )
    }

    /// Every count is the number of distinct senders that acknowledged.
    pub open spec fn counts_distinct_senders(self) -> bool {
        forall|owner_id: u32, packet_uid: u32|
            {
                &&& (#[trigger] self.ackers(owner_id, packet_uid)).finite()
                &&& self.ack_count(owner_id, packet_uid) == self.ackers(owner_id, packet_uid).len()
            }
    }

    /// A waiting message is filed under its own identity, is no
    /// acknowledgment, and has not been delivered.
    pub open spec fn waiting_room_is_sound(self) -> bool {
        forall|key: (u32, u32)| #[trigger]
            self.undelivered.contains_key(key) ==> {
                &&& self.undelivered[key].owner_id == key.0
                &&& self.undelivered[key].packet_uid == key.1
                &&& self.undelivered[key].kind != PayloadKind::Ack
                &&& !self.delivered.contains(key)
            }
    }

    /// Every FIFO cursor is at least one.
    pub open spec fn cursors_are_positive(self) -> bool {
        forall|owner_id: u32| #[trigger]
            self.received_up_to.contains_key(owner_id) ==> self.received_up_to[owner_id] >= 1
    }

    /// No waiting message but possibly `(owner_id, packet_uid)` is due.
    pub open spec fn quiescent_except(
        self,
        total_nodes: u32,
        owner_id: u32,
        packet_uid: u32,
    ) -> bool {
        forall|key: (u32, u32)|
            key != (owner_id, packet_uid) ==> !#[trigger] self.deliverable(
                total_nodes,
                key.0,
                key.1,
            )
    }

    /// No waiting message is due.
    pub open spec fn quiescent(self, total_nodes: u32) -> bool {
        forall|key: (u32, u32)| !#[trigger] self.deliverable(total_nodes, key.0, key.1)
    }

    /// What holds of the ledger between two transitions.
    pub open spec fn wf(self, total_nodes: u32) -> bool {
        &&& self.counts_distinct_senders()
        &&& self.waiting_room_is_sound()
        &&& self.cursors_are_positive()
        &&& self.quiescent(total_nodes)
    }
}

/// The identities `(owner_id, packet_uid)`, `(owner_id, packet_uid + 1)`, ...,
/// `count` of them.
pub open spec fn identities_from(owner_id: u32, packet_uid: u32, count: nat) -> Set<(u32, u32)> {
    Set::new(|key: (u32, u32)| key.0 == owner_id && packet_uid <= key.1 < packet_uid + count)
}

/// How many payloads of a run of deliveries moved the FIFO cursor: all of
/// them, or all but the last.
pub open spec fn fifo_steps(run: Seq<PayloadView>) -> nat {
    if run.len() == 0 {
        0
    } else if run.last().kind == PayloadKind::Fifob {
        run.len()
    } else {
        (run.len() - 1) as nat
    }
}

/// No more than 2^32 senders exist, so no count exceeds that.
pub proof fn lemma_count_is_bounded(ledger: Ledger, owner_id: u32, packet_uid: u32)
    requires
        ledger.counts_distinct_senders(),
    ensures
        ledger.ack_count(owner_id, packet_uid) <= 0x1_0000_0000,
{
    let ackers = ledger.ackers(owner_id, packet_uid);
    let all = Set::<u32>::full();
    broadcast use vstd::set_lib::full_set_properties;
    vstd::set_lib::range_set_properties::<u32>(0u32, u32::MAX);
    assert(all =~= Set::<u32>::range_inclusive(0u32, u32::MAX));
    assert(ackers.subset_of(all));
    vstd::set_lib::lemma_len_subset(ackers, all);
}

/// The empty ledger is well formed, whatever the number of processes.
pub proof fn lemma_empty_wf(total_nodes: u32)
    ensures
        Ledger::empty().wf(total_nodes),
{
    let empty = Ledger::empty();
    assert forall|owner_id: u32, packet_uid: u32|
        {
            &&& (#[trigger] empty.ackers(owner_id, packet_uid)).finite()
            &&& empty.ack_count(owner_id, packet_uid) == empty.ackers(owner_id, packet_uid).len()
        } by {
        assert(empty.ackers(owner_id, packet_uid) =~= Set::<u32>::empty());
    }
}

/// Recording an acknowledgment keeps every count equal to the number of
/// distinct acknowledging senders.
pub proof fn lemma_record_ack_counts(ledger: Ledger, sender_id: u32, owner_id: u32, packet_uid: u32)
    requires
        ledger.counts_distinct_senders(),
    ensures
        ledger.record_ack(sender_id, owner_id, packet_uid).counts_distinct_senders(),
{
    let next = ledger.record_ack(sender_id, owner_id, packet_uid);
    if !ledger.acked.contains((sender_id, owner_id, packet_uid)) {
        assert forall|o: u32, u: u32|
            {
                &&& (#[trigger] next.ackers(o, u)).finite()
                &&& next.ack_count(o, u) == next.ackers(o, u).len()
            } by {
            let before = ledger.ackers(o, u);
            assert(before.finite());
            if o == owner_id && u == packet_uid {
                assert(next.ackers(o, u) =~= before.insert(sender_id));
                assert(!before.contains(sender_id));
            } else {
                assert(next.ackers(o, u) =~= before);
            }
        }
    }
}

/// If nothing but `(owner_id, packet_uid)` can be due, then after an
/// attempt to deliver it nothing is due at all.
pub proof fn lemma_try_deliver_wf(ledger: Ledger, total_nodes: u32, owner_id: u32, packet_uid: u32)
    requires
        ledger.counts_distinct_senders(),
        ledger.waiting_room_is_sound(),
        ledger.cursors_are_positive(),
        ledger.quiescent_except(total_nodes, owner_id, packet_uid),
    ensures
        ledger.try_deliver(total_nodes, owner_id, packet_uid).0.wf(total_nodes),
    decreases u32::MAX - packet_uid,
{
    let key = (owner_id, packet_uid);
    if !ledger.deliverable(total_nodes, owner_id, packet_uid) {
        assert forall|k: (u32, u32)| !#[trigger] ledger.deliverable(total_nodes, k.0, k.1) by {
            if k != key {
                assert(!ledger.deliverable(total_nodes, k.0, k.1));
            }
        }
    } else {
        let payload = ledger.undelivered[key];
        let marked = ledger.mark_delivered(owner_id, packet_uid);
        assert(marked.ackers(owner_id, packet_uid) == ledger.ackers(owner_id, packet_uid));
        assert forall|o: u32, u: u32|
            {
                &&& (#[trigger] marked.ackers(o, u)).finite()
                &&& marked.ack_count(o, u) == marked.ackers(o, u).len()
            } by {
            assert(marked.ackers(o, u) == ledger.ackers(o, u));
        }
        assert(marked.waiting_room_is_sound());
        assert forall|k: (u32, u32)| !#[trigger] marked.deliverable(total_nodes, k.0, k.1) by {
            if k != key {
                assert(!ledger.deliverable(total_nodes, k.0, k.1));
            }
        }
        if payload.kind == PayloadKind::Fifob {
            let advanced = marked.advance(owner_id, packet_uid);
            assert forall|o: u32, u: u32|
                {
                    &&& (#[trigger] advanced.ackers(o, u)).finite()
                    &&& advanced.ack_count(o, u) == advanced.ackers(o, u).len()
                } by {
                assert(advanced.ackers(o, u) == ledger.ackers(o, u));
            }
            assert(advanced.waiting_room_is_sound());
            assert(advanced.cursors_are_positive());
            assert forall|k: (u32, u32)|
                k != (owner_id, (packet_uid + 1) as u32) implies !#[trigger] advanced.deliverable(
                total_nodes,
                k.0,
                k.1,
            ) by {
                if k != key {
                    assert(!marked.deliverable(total_nodes, k.0, k.1));
                }
            }
            if packet_uid < u32::MAX {
                lemma_try_deliver_wf(advanced, total_nodes, owner_id, (packet_uid + 1) as u32);
            } else {
                assert forall|k: (u32, u32)| !#[trigger] advanced.deliverable(
                    total_nodes,
                    k.0,
                    k.1,
                ) by {
                    if k != key {
                        assert(!marked.deliverable(total_nodes, k.0, k.1));
                    }
                }
            }
        }
    }
}

/// What one attempt delivers: the messages that waited under consecutive
/// sequence numbers from `packet_uid` on, each one due when its turn came.
/// All but the last are FIFO messages, and the cursor moved once for each
/// FIFO message.
pub proof fn lemma_try_deliver_run(ledger: Ledger, total_nodes: u32, owner_id: u32, packet_uid: u32)
    requires
        ledger.waiting_room_is_sound(),
    ensures
        ({
            let (next, run) = ledger.try_deliver(total_nodes, owner_id, packet_uid);
            &&& packet_uid + run.len() <= u32::MAX + 1
            &&& forall|i: int|
                0 <= i < run.len() ==> {
                    let key = (owner_id, (packet_uid + i) as u32);
                    &&& ledger.undelivered.contains_key(key)
                    &&& (#[trigger] run[i]) == ledger.undelivered[key]
                    &&& run[i].kind == PayloadKind::Urb || run[i].kind == PayloadKind::Fifob
                        ==> ledger.has_quorum(total_nodes, key.0, key.1)
                    &&& run[i].kind == PayloadKind::Fifob ==> ledger.next_expected(owner_id)
                        == packet_uid
                    &&& i + 1 < run.len() ==> run[i].kind == PayloadKind::Fifob
                }
            &&& next.delivered == ledger.delivered + identities_from(
                owner_id,
                packet_uid,
                run.len(),
            )
            &&& next.undelivered == ledger.undelivered.remove_keys(
                identities_from(owner_id, packet_uid, run.len()),
            )
            &&& next.acked == ledger.acked
            &&& next.acked_counter == ledger.acked_counter
            &&& next.received_up_to == if fifo_steps(run) > 0 {
                ledger.received_up_to.insert(owner_id, (packet_uid + fifo_steps(run)) as nat)
            } else {
                ledger.received_up_to
            }
        }),
    decreases u32::MAX - packet_uid,
{
    let (next, run) = ledger.try_deliver(total_nodes, owner_id, packet_uid);
    let key = (owner_id, packet_uid);
    if !ledger.deliverable(total_nodes, owner_id, packet_uid) {
        assert(next.delivered =~= ledger.delivered + identities_from(owner_id, packet_uid, 0));
        assert(next.undelivered =~= ledger.undelivered.remove_keys(
            identities_from(owner_id, packet_uid, 0),
        ));
    } else {
        let payload = ledger.undelivered[key];
        let marked = ledger.mark_delivered(owner_id, packet_uid);
        if payload.kind != PayloadKind::Fifob || packet_uid == u32::MAX {
            assert(next.delivered =~= ledger.delivered + identities_from(owner_id, packet_uid, 1));
            assert(next.undelivered =~= ledger.undelivered.remove_keys(
                identities_from(owner_id, packet_uid, 1),
            ));
            assert(next.received_up_to =~= if fifo_steps(run) > 0 {
                ledger.received_up_to.insert(owner_id, (packet_uid + fifo_steps(run)) as nat)
            } else {
                ledger.received_up_to
            });
        } else {
            let advanced = marked.advance(owner_id, packet_uid);
            let after = (packet_uid + 1) as u32;
            let (last, more) = advanced.try_deliver(total_nodes, owner_id, after);
            lemma_try_deliver_run(advanced, total_nodes, owner_id, after);
            assert(run == seq![payload] + more);
            assert forall|i: int| 0 <= i < run.len() implies {
                let k = (owner_id, (packet_uid + i) as u32);
                &&& ledger.undelivered.contains_key(k)
                &&& (#[trigger] run[i]) == ledger.undelivered[k]
                &&& run[i].kind == PayloadKind::Urb || run[i].kind == PayloadKind::Fifob
                    ==> ledger.has_quorum(total_nodes, k.0, k.1)
                &&& run[i].kind == PayloadKind::Fifob ==> ledger.next_expected(owner_id)
                    == packet_uid
                &&& i + 1 < run.len() ==> run[i].kind == PayloadKind::Fifob
            } by {
                if i > 0 {
                    assert(run[i] == more[i - 1]);
                    let k = (owner_id, (after + (i - 1)) as u32);
                    assert(advanced.undelivered.contains_key(k));
                }
            }
            assert(next.delivered =~= ledger.delivered + identities_from(
                owner_id,
                packet_uid,
                run.len(),
            ));
            assert(next.undelivered =~= ledger.undelivered.remove_keys(
                identities_from(owner_id, packet_uid, run.len()),
            ));
            assert(fifo_steps(run) == fifo_steps(more) + 1) by {
                if more.len() > 0 {
                    assert(run.last() == more.last());
                }
            }
            assert(next.received_up_to =~= ledger.received_up_to.insert(
                owner_id,
                (packet_uid + fifo_steps(run)) as nat,
            ));
        }
    }
}

/// The transition keeps the ledger well formed.
pub proof fn lemma_insert_wf(ledger: Ledger, total_nodes: u32, sender_id: u32, payload: PayloadView)
    requires
        ledger.wf(total_nodes),
    ensures
        ledger.insert(total_nodes, sender_id, payload).0.wf(total_nodes),
{
    let key = (payload.owner_id, payload.packet_uid);
    let recorded = ledger.record_ack(sender_id, payload.owner_id, payload.packet_uid);
    let stashed = recorded.stash(payload);
    lemma_record_ack_counts(ledger, sender_id, payload.owner_id, payload.packet_uid);
    assert forall|o: u32, u: u32|
        {
            &&& (#[trigger] stashed.ackers(o, u)).finite()
            &&& stashed.ack_count(o, u) == stashed.ackers(o, u).len()
        } by {
        assert(stashed.ackers(o, u) == recorded.ackers(o, u));
    }
    assert(stashed.waiting_room_is_sound());
    assert forall|k: (u32, u32)| k != key implies !#[trigger] stashed.deliverable(
        total_nodes,
        k.0,
        k.1,
    ) by {
        assert(!ledger.deliverable(total_nodes, k.0, k.1));
    }
    lemma_try_deliver_wf(stashed, total_nodes, payload.owner_id, payload.packet_uid);
}

} // verus!
