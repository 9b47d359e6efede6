//! The delivery ledger of one process: which acknowledgments it has seen,
//! which messages wait, and which have been delivered.

use crate::hosts::{Node, NodeView};
use crate::ledger::{
    lemma_count_is_bounded,
    lemma_empty_wf,
    lemma_insert_wf,
    majority,
    Ledger,
};
use crate::tables::{PairMap, PairSet, TripleSet};
use crate::udp::{Payload, PayloadKind, PayloadView};
use std::collections::HashMap;
use vstd::prelude::*;

verus! {

broadcast use vstd::std_specs::hash::group_hash_axioms;

/// What the log of a process records.
#[derive(Debug, PartialEq, Eq)]
pub enum LogEvent {
    /// The process handed a message of its own to the transport: to one
    /// recipient, or to everybody where there is none.
    Dispatch { recipient: Option<Node>, kind: PayloadKind, contents: Vec<u8> },
    /// The process delivered a message to the application.
    Delivery { owner_id: u32, kind: PayloadKind, contents: Vec<u8> },
}

/// The mathematical value of a [`LogEvent`].
pub ghost enum LogEventView {
    Dispatch { recipient: Option<NodeView>, kind: PayloadKind, contents: Seq<u8> },
    Delivery { owner_id: u32, kind: PayloadKind, contents: Seq<u8> },
}

impl View for LogEvent {
    type V = LogEventView;

    open spec fn view(&self) -> LogEventView {
        match *self {
            LogEvent::Dispatch { recipient, kind, contents } => LogEventView::Dispatch {
                recipient: match recipient {
                    Some(node) => Some(node@),
                    None => None,
                },
                kind,
                contents: contents@,
            },
            LogEvent::Delivery { owner_id, kind, contents } => LogEventView::Delivery {
                owner_id,
                kind,
                contents: contents@,
            },
        }
    }
}

/// The values of a sequence of events.
pub open spec fn event_views(events: Seq<LogEvent>) -> Seq<LogEventView> {
    events.map_values(|event: LogEvent| event@)
}

/// The event that the delivery of `payload` leaves in the log.
pub open spec fn delivery_event(payload: PayloadView) -> LogEventView {
    LogEventView::Delivery {
        owner_id: payload.owner_id,
        kind: payload.kind,
        contents: payload.buffer,
    }
}

/// The events that a run of deliveries leaves in the log, in order.
pub open spec fn delivery_events(payloads: Seq<PayloadView>) -> Seq<LogEventView> {
    payloads.map_values(|payload: PayloadView| delivery_event(payload))
}

/// The tables of a ledger.
#[derive(Debug)]
struct Tables {
    acked: TripleSet,
    acked_counter: PairMap<u64>,
    received_up_to: HashMap<u32, u64>,
    undelivered: PairMap<Payload>,
    set: PairSet,
}

impl View for Tables {
    type V = Ledger;

    closed spec fn view(&self) -> Ledger {
        Ledger {
            acked: self.acked@,
            acked_counter: self.acked_counter@.map_values(|count: u64| count as nat),
            received_up_to: self.received_up_to@.map_values(|next: u64| next as nat),
            undelivered: self.undelivered@.map_values(|payload: Payload| payload@),
            delivered: self.set@,
        }
    }
}

/// The tables of a ledger that no process has used yet. They fill once an
/// [`AccessDeliveredSet`] has taken them over, and only through it.
#[derive(Debug)]
pub struct DeliveredSet {
    tables: Tables,
}

impl View for DeliveredSet {
    type V = Ledger;

    closed spec fn view(&self) -> Ledger {
        self.tables@
    }
}

impl DeliveredSet {
    #[verifier::type_invariant]
    spec fn is_fresh(self) -> bool {
        self.tables@ == Ledger::empty()
    }

    /// The tables of a process that has seen nothing yet.
    pub fn new() -> (tables: Self)
        ensures
            tables@ == Ledger::empty(),
    {
        DeliveredSet { tables: Tables::new() }
    }
}

impl Tables {
    /// Empty tables. They are well formed for a system of any size.
    fn new() -> (tables: Self)
        ensures
            tables@ == Ledger::empty(),
            forall|total_nodes: u32| #[trigger] tables@.wf(total_nodes),
    {
        let tables = Tables {
            acked: TripleSet::new(),
            acked_counter: PairMap::new(),
            received_up_to: HashMap::new(),
            undelivered: PairMap::new(),
            set: PairSet::new(),
        };
        assert(tables@.acked_counter =~= Map::empty());
        assert(tables@.received_up_to =~= Map::empty());
        assert(tables@.undelivered =~= Map::empty());
        assert forall|total_nodes: u32| #[trigger] tables@.wf(total_nodes) by {
            lemma_empty_wf(total_nodes);
        }
        tables
    }

    /// The ledger's transition on the tables of a process among
    /// `total_nodes`.
    fn insert(&mut self, total_nodes: u32, sender_id: u32, payload: &Payload) -> (events: Vec<
        LogEvent,
    >)
        requires
            old(self)@.wf(total_nodes),
        ensures
            final(self)@.wf(total_nodes),
            final(self)@ == old(self)@.insert(total_nodes, sender_id, payload@).0,
            event_views(events@) == delivery_events(
                old(self)@.insert(total_nodes, sender_id, payload@).1,
            ),
    {
        let owner_id = payload.owner_id;
        let packet_uid = payload.packet_uid;
        let fresh = self.acked.insert(sender_id, owner_id, packet_uid);
        if fresh {
            let count = match self.acked_counter.get(owner_id, packet_uid) {
                Some(count) => *count,
                None => 0,
            };
            proof {
                lemma_count_is_bounded(old(self)@, owner_id, packet_uid);
            }
            self.acked_counter.insert(owner_id, packet_uid, count + 1);
            assert(self@.acked_counter =~= old(self)@.acked_counter.insert(
                (owner_id, packet_uid),
                old(self)@.ack_count(owner_id, packet_uid) + 1,
            ));
        }
        assert(self@ == old(self)@.record_ack(sender_id, owner_id, packet_uid));
        if !payload.kind.is_ack() && !self.set.contains(owner_id, packet_uid) {
            self.undelivered.insert(owner_id, packet_uid, payload.clone());
            assert(self@.undelivered =~= old(self)@.undelivered.insert(
                (owner_id, packet_uid),
                payload@,
            ));
        }
        assert(self@ == old(self)@.record_ack(sender_id, owner_id, packet_uid).stash(payload@));
        let mut events = Vec::new();
        assert(event_views(events@) =~= Seq::empty());
        if self.undelivered.get(owner_id, packet_uid).is_some() {
            self.try_delivering(total_nodes, owner_id, packet_uid, &mut events);
        }
        proof {
            lemma_insert_wf(old(self)@, total_nodes, sender_id, payload@);
            let delivered = old(self)@.insert(total_nodes, sender_id, payload@).1;
            assert(Seq::<LogEventView>::empty() + delivery_events(delivered) =~= delivery_events(
                delivered,
            ));
        }
        events
    }

    /// Delivers the waiting message `(owner_id, packet_uid)` if it is due,
    /// and after a FIFO delivery its successors for as long as they wait and
    /// are due. The message to start with must wait: a delivery never looks
    /// for a payload that is not there.
    fn try_delivering(
        &mut self,
        total_nodes: u32,
        owner_id: u32,
        packet_uid: u32,
        events: &mut Vec<LogEvent>,
    )
        requires
            old(self)@.undelivered.contains_key((owner_id, packet_uid)),
        ensures
            final(self)@ == old(self)@.try_deliver(total_nodes, owner_id, packet_uid).0,
            event_views(final(events)@) == event_views(old(events)@) + delivery_events(
                old(self)@.try_deliver(total_nodes, owner_id, packet_uid).1,
            ),
    {
        let ghost goal = self@.try_deliver(total_nodes, owner_id, packet_uid);
        let ghost logged = event_views(events@);
        let ghost done: Seq<PayloadView> = Seq::empty();
        let mut next = packet_uid;
        let mut going = true;
        assert(done + goal.1 =~= goal.1);
        assert(logged + delivery_events(done) =~= logged);
        while going
            invariant
                event_views(events@) == logged + delivery_events(done),
                going ==> self@.undelivered.contains_key((owner_id, next)),
                going ==> self@.try_deliver(total_nodes, owner_id, next).0 == goal.0,
                going ==> done + self@.try_deliver(total_nodes, owner_id, next).1 == goal.1,
                !going ==> self@ == goal.0 && done == goal.1,
            decreases u32::MAX - next + (if going { 1int } else { 0int }),
        {
            let kind = self.undelivered.get(owner_id, next).unwrap().kind;
            if !self.can_deliver(total_nodes, kind, owner_id, next) {
                going = false;
                assert(done + Seq::<PayloadView>::empty() =~= done);
            } else {
                let ghost before = self@;
                let ghost rest = before.try_deliver(total_nodes, owner_id, next).1;
                let payload = self.undelivered.remove(owner_id, next).unwrap();
                assert(self@.undelivered =~= before.undelivered.remove((owner_id, next)));
                let fifo = matches!(payload.kind, PayloadKind::Fifob);
                let ghost view = payload@;
                self.deliver(owner_id, next, payload, events);
                assert(self@ == before.mark_delivered(owner_id, next));
                proof {
                    assert(delivery_events(done.push(view)) =~= delivery_events(done).push(
                        delivery_event(view),
                    ));
                    assert(logged + delivery_events(done).push(delivery_event(view)) =~= (logged
                        + delivery_events(done)).push(delivery_event(view)));
                }
                if fifo {
                    self.try_delivering_fifob(owner_id, next);
                    if next == u32::MAX {
                        going = false;
                        assert(done + seq![view] =~= done.push(view));
                    } else {
                        next = next + 1;
                        proof {
                            let tail = self@.try_deliver(total_nodes, owner_id, next).1;
                            assert(rest == seq![view] + tail);
                            assert(done + (seq![view] + tail) =~= done.push(view) + tail);
                        }
                        if self.undelivered.get(owner_id, next).is_none() {
                            going = false;
                            assert(done.push(view) + Seq::<PayloadView>::empty() =~= done.push(
                                view,
                            ));
                        }
                    }
                } else {
                    going = false;
                    assert(done + seq![view] =~= done.push(view));
                }
                proof {
                    done = done.push(view);
                }
            }
        }
    }

    /// Moves the FIFO cursor of `owner_id` past the message just delivered.
    fn try_delivering_fifob(&mut self, owner_id: u32, packet_uid: u32)
        ensures
            final(self)@ == old(self)@.advance(owner_id, packet_uid),
    {
        let past: u64 = packet_uid as u64 + 1;
        self.received_up_to.insert(owner_id, past);
        assert(self@.received_up_to =~= old(self)@.received_up_to.insert(
            owner_id,
            (packet_uid + 1) as nat,
        ));
    }

    /// Marks message `(owner_id, packet_uid)` as delivered and logs the
    /// delivery of its payload.
    fn deliver(
        &mut self,
        owner_id: u32,
        packet_uid: u32,
        payload: Payload,
        events: &mut Vec<LogEvent>,
    )
        ensures
            final(self)@ == (Ledger {
                delivered: old(self)@.delivered.insert((owner_id, packet_uid)),
                ..old(self)@
            }),
            event_views(final(events)@) == event_views(old(events)@).push(
                delivery_event(payload@),
            ),
    {
        self.set.insert(owner_id, packet_uid);
        let event = LogEvent::Delivery {
            owner_id: payload.owner_id,
            kind: payload.kind,
            contents: payload.buffer,
        };
        events.push(event);
        assert(event_views(events@) =~= event_views(old(events)@).push(delivery_event(payload@)));
    }

    /// The delivery condition of a payload of the given kind.
    fn can_deliver(
        &self,
        total_nodes: u32,
        kind: PayloadKind,
        owner_id: u32,
        packet_uid: u32,
    ) -> (due: bool)
        ensures
            due == self@.can_deliver(total_nodes, kind, owner_id, packet_uid),
    {
        match kind {
            PayloadKind::Ack => false,
            PayloadKind::Tcp => true,
            PayloadKind::Beb => true,
            PayloadKind::Rb => true,
            PayloadKind::Urb => self.can_urb_deliver(total_nodes, owner_id, packet_uid),
            PayloadKind::Fifob => self.can_fifob_deliver(total_nodes, owner_id, packet_uid),
        }
    }

    /// Whether a quorum has acknowledged the message.
    fn can_urb_deliver(&self, total_nodes: u32, owner_id: u32, packet_uid: u32) -> (due: bool)
        ensures
            due == self@.has_quorum(total_nodes, owner_id, packet_uid),
    {
        match self.acked_counter.get(owner_id, packet_uid) {
            Some(count) => *count >= Self::majority(total_nodes) as u64,
            None => false,
        }
    }

    /// More than half of the processes.
    fn majority(total_nodes: u32) -> (quorum: u32)
        ensures
            quorum == majority(total_nodes),
    {
        (total_nodes / 2) + 1
    }

    /// Whether a quorum has acknowledged the message and it is the next one
    /// of its owner.
    fn can_fifob_deliver(&self, total_nodes: u32, owner_id: u32, packet_uid: u32) -> (due: bool)
        ensures
            due == (self@.has_quorum(total_nodes, owner_id, packet_uid) && packet_uid
                == self@.next_expected(owner_id)),
    {
        let next: u64 = match self.received_up_to.get(&owner_id) {
            Some(next) => *next,
            None => 1,
        };
        self.can_urb_deliver(total_nodes, owner_id, packet_uid) && packet_uid as u64 == next
    }
}

/// The ledger of one process among `total_nodes`, and the only way to its
/// tables. Between any two calls the ledger is well formed.
///
/// Every operation that changes the ledger takes it exclusively and runs as
/// one step, from its first look at the tables to its last delivery. A
/// process that shares its ledger among threads keeps it behind a lock.
#[derive(Debug)]
pub struct AccessDeliveredSet {
    delivered: Tables,
    total_nodes: u32,
    current_node_id: u32,
}

impl View for AccessDeliveredSet {
    type V = Ledger;

    closed spec fn view(&self) -> Ledger {
        self.delivered@
    }
}

impl AccessDeliveredSet {
    #[verifier::type_invariant]
    spec fn well_formed(self) -> bool {
        self.delivered@.wf(self.total_nodes)
    }

    /// The number of processes in the system.
    pub closed spec fn spec_total_nodes(&self) -> u32 {
        self.total_nodes
    }

    /// The number of processes in the system.
    #[verifier::when_used_as_spec(spec_total_nodes)]
    pub fn total_nodes(&self) -> (total: u32)
        ensures
            total == self.total_nodes(),
    {
        self.total_nodes
    }

    /// The identifier of the process that keeps this ledger.
    pub closed spec fn spec_current_node_id(&self) -> u32 {
        self.current_node_id
    }

    /// The identifier of the process that keeps this ledger.
    #[verifier::when_used_as_spec(spec_current_node_id)]
    pub fn current_node_id(&self) -> (id: u32)
        ensures
            id == self.current_node_id(),
    {
        self.current_node_id
    }

    /// Puts fresh tables to work for process `current_node_id` among
    /// `total_nodes`.
    pub fn new(delivered: DeliveredSet, total_nodes: u32, current_node_id: u32) -> (access: Self)
        ensures
            access@ == Ledger::empty(),
            access@.wf(total_nodes),
            access.total_nodes() == total_nodes,
            access.current_node_id() == current_node_id,
    {
        proof {
            use_type_invariant(&delivered);
            lemma_empty_wf(total_nodes);
        }
        AccessDeliveredSet { delivered: delivered.tables, total_nodes, current_node_id }
    }

    /// Takes in `payload` as it arrived from `sender_id`: notes the
    /// acknowledgment, counts it if that sender had not acknowledged the
    /// message before, files the payload unless the message was delivered
    /// already, and delivers what has become due. Returns one event for each
    /// delivery, in order.
    ///
    /// Any payload acknowledges its message. A payload of kind `Ack` does
    /// nothing more: it is not filed, and what it sets off is the delivery of
    /// the payload that waits for it, by the rule of that payload's kind.
    pub fn insert(&mut self, sender_id: u32, payload: &Payload) -> (events: Vec<LogEvent>)
        ensures
            final(self).total_nodes() == old(self).total_nodes(),
            final(self).current_node_id() == old(self).current_node_id(),
            final(self)@.wf(final(self).total_nodes()),
            final(self)@ == old(self)@.insert(old(self).total_nodes(), sender_id, payload@).0,
            event_views(events@) == delivery_events(
                old(self)@.insert(old(self).total_nodes(), sender_id, payload@).1,
            ),
    {
        proof {
            use_type_invariant(&*self);
        }
        let mut tables = Tables::new();
        std::mem::swap(&mut tables, &mut self.delivered);
        let events = tables.insert(self.total_nodes, sender_id, payload);
        self.delivered = tables;
        events
    }

    /// Whether `sender_id` has acknowledged message `(owner_id, packet_uid)`.
    pub fn contains(&self, sender_id: u32, owner_id: u32, packet_uid: u32) -> (acked: bool)
        ensures
            acked == self@.acked.contains((sender_id, owner_id, packet_uid)),
    {
        self.delivered.acked.contains(sender_id, owner_id, packet_uid)
    }

    /// Takes in a payload of this process's own making, as if it had arrived
    /// from the process itself.
    pub fn mark_as_seen(&mut self, payload: &Payload) -> (events: Vec<LogEvent>)
        ensures
            final(self).total_nodes() == old(self).total_nodes(),
            final(self).current_node_id() == old(self).current_node_id(),
            final(self)@.wf(final(self).total_nodes()),
            final(self)@ == old(self)@.insert(
                old(self).total_nodes(),
                old(self).current_node_id(),
                payload@,
            ).0,
            event_views(events@) == delivery_events(
                old(self)@.insert(old(self).total_nodes(), old(self).current_node_id(), payload@).1,
            ),
    {
        let current_node_id = self.current_node_id;
        self.insert(current_node_id, payload)
    }

    /// Whether this process has taken in the message of `payload` itself.
    pub fn was_seen(&self, payload: &Payload) -> (seen: bool)
        ensures
            seen == self@.acked.contains(
                (self.current_node_id(), payload.owner_id, payload.packet_uid),
            ),
    {
        self.contains(self.current_node_id, payload.owner_id, payload.packet_uid)
    }
}

} // verus!
