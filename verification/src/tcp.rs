//! The perfect link: messages in flight, and what the send, receive and
//! retransmission loops decide about them.
//!
//! The loops themselves block on sockets, queues and the clock and belong to
//! the caller. Each function here is one step of a loop: it takes what the
//! loop has in hand and says what to do next.

use crate::codec::{decode, encode, payload_image, CodecError, MAX_UDP_PAYLOAD_SIZE};
use crate::delivered::{delivery_events, event_views, AccessDeliveredSet, LogEvent};
use crate::hosts::{find_node, position_of, Node, NodeView};
use crate::udp::{Payload, PayloadKind, PayloadView};
use std::time::{Duration, Instant};
use vstd::prelude::*;

verus! {

/// How long a message waits for its acknowledgment before it is sent again,
/// in milliseconds.
pub const RETRANSMISSION_OFFSET_MS: u64 = 1000;

/// How long the retransmission loop sleeps between two looks at the clock:
/// a tenth of the offset.
pub const RETRANSMISSION_POLL_MS: u64 = RETRANSMISSION_OFFSET_MS / 10;

/// A point in time as the monotonic clock of the machine gives it.
#[verifier::external_type_specification]
#[verifier::external_body]
pub struct ExInstant(Instant);

/// `Instant::now` reads the clock; nothing is known of what it returns.
pub assume_specification[ Instant::now ]() -> (now: Instant)
;

/// `Instant::elapsed` reads the clock; nothing is known of what it returns.
pub assume_specification[ Instant::elapsed ](start: &Instant) -> (elapsed: Duration)
;

/// `Duration::as_millis` gives the whole milliseconds of a duration; the
/// library has no model of a duration, so nothing is stated of the number.
pub assume_specification[ Duration::as_millis ](duration: &Duration) -> (millis: u128)
;

/// A payload on its way to one process.
#[derive(Debug)]
pub struct Message {
    pub payload: Payload,
    pub destination: Node,
    /// When the payload was last put on the wire, or queued if it never was.
    pub sending_time: Instant,
}

/// The mathematical value of a [`Message`]: what travels and where to. The
/// time of sending is no part of it.
pub ghost struct MessageView {
    pub payload: PayloadView,
    pub destination: NodeView,
}

impl View for Message {
    type V = MessageView;

    open spec fn view(&self) -> MessageView {
        MessageView { payload: self.payload@, destination: self.destination@ }
    }
}

/// The values of a sequence of messages.
pub open spec fn message_views(messages: Seq<Message>) -> Seq<MessageView> {
    messages.map_values(|message: Message| message@)
}

impl Clone for Message {
    fn clone(&self) -> (copy: Self)
        ensures
            copy@ == self@,
    {
        Message {
            payload: self.payload.clone(),
            destination: self.destination.clone(),
            sending_time: self.sending_time,
        }
    }
}

impl Message {
    /// Queues a payload for a destination, as of now.
    pub fn new(payload: Payload, destination: Node) -> (message: Self)
        ensures
            message.payload == payload,
            message.destination == destination,
    {
        Message { payload, destination, sending_time: Instant::now() }
    }

    /// Whether the retransmission offset has passed since the message was
    /// last sent. The answer depends on the clock alone;
    /// [`retransmission_is_due`] says how.
    pub fn ready_for_retransmission(&self) -> bool {
        let elapsed = self.sending_time.elapsed();
        retransmission_is_due(elapsed.as_millis())
    }

    /// Whether the message is sent again while no acknowledgment has come:
    /// every message is, but an acknowledgment.
    pub fn should_retransmit(&self) -> (again: bool)
        ensures
            again == (self.payload.kind != PayloadKind::Ack),
    {
        !self.payload.kind.is_ack()
    }
}

/// Whether a message last sent `elapsed_ms` milliseconds ago has waited for
/// the whole retransmission offset.
pub fn retransmission_is_due(elapsed_ms: u128) -> (due: bool)
    ensures
        due == (elapsed_ms >= RETRANSMISSION_OFFSET_MS),
{
    elapsed_ms >= RETRANSMISSION_OFFSET_MS as u128
}

/// The send loop, before the socket: marks the payload as sent by this
/// process and encodes it. The payload is marked whether or not its
/// encoding fits in a datagram.
pub fn prepare_datagram(message: &mut Message, current_node_id: u32) -> (datagram: Result<
    Vec<u8>,
    CodecError,
>)
    ensures
        final(message)@ == (MessageView {
            payload: old(message)@.payload.stamped(current_node_id),
            ..old(message)@
        }),
        datagram is Ok <==> payload_image(final(message)@.payload).len()
            <= MAX_UDP_PAYLOAD_SIZE,
        match datagram {
            Ok(bytes) => bytes@ == payload_image(final(message)@.payload),
            Err(error) => error == CodecError::DatagramTooLarge,
        },
{
    message.payload.sender_id = current_node_id;
    encode(&message.payload)
}

/// What becomes of a message that went on the wire at `now`: it is due for
/// the retransmission queue with `now` as its time of sending, unless it is
/// an acknowledgment, which is never sent again.
pub fn sent_at(message: Message, now: Instant) -> (queued: Option<Message>)
    ensures
        match queued {
            Some(waiting) => {
                &&& waiting@ == message@
                &&& waiting.sending_time == now
                &&& message.payload.kind != PayloadKind::Ack
            },
            None => message.payload.kind == PayloadKind::Ack,
        },
{
    let mut message = message;
    message.sending_time = now;
    if message.should_retransmit() {
        Some(message)
    } else {
        None
    }
}

/// The send loop, after the socket: reads the clock and goes on as
/// [`sent_at`] does with that reading.
pub fn after_sending(message: Message) -> (queued: Option<Message>)
    ensures
        match queued {
            Some(waiting) => waiting@ == message@ && message.payload.kind != PayloadKind::Ack,
            None => message.payload.kind == PayloadKind::Ack,
        },
{
    sent_at(message, Instant::now())
}

/// What the receive loop does with one payload.
#[derive(Debug)]
pub struct Reception {
    /// The acknowledgment to queue for the sender, unless the payload was one
    /// itself.
    pub acknowledgment: Option<Message>,
    /// One event for each delivery that the payload set off, in order.
    pub events: Vec<LogEvent>,
}

/// Why the receive loop turned a datagram down.
#[derive(Debug, Clone, Copy, PartialEq, Eq, Structural)]
pub enum ReceiveError {
    /// The datagram holds no payload; the sender will send it again.
    MalformedPayload,
    /// The payload asks for an acknowledgment, and the host list does not
    /// name its sender.
    UnknownSender,
}

/// The acknowledgment of a payload for the process at `destination`.
pub open spec fn acknowledgment_of(payload: PayloadView, destination: NodeView) -> MessageView {
    MessageView { payload: payload.acknowledgment(), destination }
}

/// The receive loop, after decoding: acknowledges the payload to its sender
/// unless it is an acknowledgment itself, and takes it into the ledger. A
/// payload that cannot be acknowledged, because nobody knows its sender,
/// leaves the ledger as it was.
pub fn receive_payload(
    ledger: &mut AccessDeliveredSet,
    nodes: &Vec<Node>,
    payload: &Payload,
) -> (result: Result<Reception, ReceiveError>)
    ensures
        final(ledger).total_nodes() == old(ledger).total_nodes(),
        final(ledger).current_node_id() == old(ledger).current_node_id(),
        match result {
            Ok(reception) => {
                let (next, delivered) = old(ledger)@.insert(
                    old(ledger).total_nodes(),
                    payload.sender_id,
                    payload@,
                );
                &&& final(ledger)@ == next
                &&& event_views(reception.events@) == delivery_events(delivered)
                &&& match reception.acknowledgment {
                    Some(message) => payload.kind != PayloadKind::Ack && match position_of(
                        nodes@,
                        payload.sender_id,
                    ) {
                        Some(position) => 0 <= position < nodes.len() && message@
                            == acknowledgment_of(payload@, nodes[position]@),
                        None => false,
                    },
                    None => payload.kind == PayloadKind::Ack,
                }
            },
            Err(error) => {
                &&& error == ReceiveError::UnknownSender
                &&& payload.kind != PayloadKind::Ack
                &&& position_of(nodes@, payload.sender_id) is None
                &&& final(ledger)@ == old(ledger)@
            },
        },
{
    let acknowledgment = if payload.kind.is_ack() {
        None
    } else {
        match find_node(nodes, payload.sender_id) {
            Some(sender) => {
                let mut answer = payload.clone();
                answer.kind = PayloadKind::Ack;
                Some(Message::new(answer, sender.clone()))
            },
            None => {
                return Err(ReceiveError::UnknownSender);
            },
        }
    };
    let events = ledger.insert(payload.sender_id, payload);
    Ok(Reception { acknowledgment, events })
}

/// The receive loop, from the socket on: decodes the datagram and goes on
/// as [`receive_payload`] does. A datagram that holds no payload leaves the
/// ledger as it was.
pub fn receive_datagram(
    ledger: &mut AccessDeliveredSet,
    nodes: &Vec<Node>,
    bytes: &[u8],
) -> (result: Result<(Payload, Reception), ReceiveError>)
    ensures
        final(ledger).total_nodes() == old(ledger).total_nodes(),
        final(ledger).current_node_id() == old(ledger).current_node_id(),
        match result {
            Ok((payload, reception)) => {
                let (next, delivered) = old(ledger)@.insert(
                    old(ledger).total_nodes(),
                    payload.sender_id,
                    payload@,
                );
                &&& payload_image(payload@).is_prefix_of(bytes@)
                &&& final(ledger)@ == next
                &&& event_views(reception.events@) == delivery_events(delivered)
                &&& match reception.acknowledgment {
                    Some(message) => payload.kind != PayloadKind::Ack && match position_of(
                        nodes@,
                        payload.sender_id,
                    ) {
                        Some(position) => 0 <= position < nodes.len() && message@
                            == acknowledgment_of(payload@, nodes[position]@),
                        None => false,
                    },
                    None => payload.kind == PayloadKind::Ack,
                }
            },
            Err(ReceiveError::MalformedPayload) => {
                &&& final(ledger)@ == old(ledger)@
                &&& forall|any: PayloadView| !(#[trigger] payload_image(any)).is_prefix_of(bytes@)
            },
            Err(ReceiveError::UnknownSender) => {
                &&& final(ledger)@ == old(ledger)@
                &&& exists|payload: PayloadView|
                    {
                        &&& (#[trigger] payload_image(payload)).is_prefix_of(bytes@)
                        &&& payload.kind != PayloadKind::Ack
                        &&& position_of(nodes@, payload.sender_id) is None
                    }
            },
        },
{
    match decode(bytes) {
        Err(_) => Err(ReceiveError::MalformedPayload),
        Ok(payload) => {
            match receive_payload(ledger, nodes, &payload) {
                Ok(reception) => Ok((payload, reception)),
                Err(error) => Err(error),
            }
        },
    }
}

/// Where the retransmission loop stands with a message.
#[derive(Debug, Clone, Copy, PartialEq, Eq, Structural)]
pub enum RetransmitPhase {
    /// The message has just come off the retransmission queue.
    Dequeued,
    /// The loop has slept over the message at least once.
    Waiting,
}

/// What the retransmission loop does next with a message.
#[derive(Debug, Clone, Copy, PartialEq, Eq, Structural)]
pub enum RetransmitAction {
    /// The destination has acknowledged: forget the message.
    Drop,
    /// Sleep for so many milliseconds, then ask again as `Waiting`.
    Sleep { millis: u64 },
    /// Put the message back on the send queue.
    Resend,
}

/// The rule of the retransmission loop. A message that comes off the queue
/// acknowledged is dropped at once. Any other waits, in short sleeps, until
/// the offset has passed since it was sent; then it is sent again unless
/// its acknowledgment has come in the meantime.
pub open spec fn retransmit_rule(
    phase: RetransmitPhase,
    acknowledged: bool,
    elapsed_ms: u128,
) -> RetransmitAction {
    if phase == RetransmitPhase::Dequeued && acknowledged {
        RetransmitAction::Drop
    } else if elapsed_ms < RETRANSMISSION_OFFSET_MS {
        RetransmitAction::Sleep { millis: RETRANSMISSION_POLL_MS }
    } else if acknowledged {
        RetransmitAction::Drop
    } else {
        RetransmitAction::Resend
    }
}

/// Retransmission: a message whose destination has not acknowledged it is
/// never dropped, and is sent again as soon as the loop finds that the
/// offset has passed; until then the loop sleeps for a tenth of the offset
/// at a time. A message whose destination has acknowledged it is never
/// sent again.
pub proof fn law_retransmission(phase: RetransmitPhase, acknowledged: bool, elapsed_ms: u128)
    ensures
        acknowledged ==> retransmit_rule(phase, acknowledged, elapsed_ms)
            != RetransmitAction::Resend,
        !acknowledged ==> retransmit_rule(phase, acknowledged, elapsed_ms)
            != RetransmitAction::Drop,
        !acknowledged && elapsed_ms >= RETRANSMISSION_OFFSET_MS ==> retransmit_rule(
            phase,
            acknowledged,
            elapsed_ms,
        ) == RetransmitAction::Resend,
        retransmit_rule(phase, acknowledged, elapsed_ms) matches RetransmitAction::Sleep { millis }
            ==> elapsed_ms < RETRANSMISSION_OFFSET_MS && 10 * millis == RETRANSMISSION_OFFSET_MS,
{
}

/// The retransmission loop's decision, from what the ledger and the clock
/// say.
pub fn retransmit_action(phase: RetransmitPhase, acknowledged: bool, elapsed_ms: u128) -> (action:
    RetransmitAction)
    ensures
        action == retransmit_rule(phase, acknowledged, elapsed_ms),
{
    if matches!(phase, RetransmitPhase::Dequeued) && acknowledged {
        RetransmitAction::Drop
    } else if !retransmission_is_due(elapsed_ms) {
        RetransmitAction::Sleep { millis: RETRANSMISSION_POLL_MS }
    } else if acknowledged {
        RetransmitAction::Drop
    } else {
        RetransmitAction::Resend
    }
}

/// Whether the destination of a message has acknowledged it.
pub open spec fn is_acknowledged(ledger: &AccessDeliveredSet, message: &Message) -> bool {
    ledger@.acked.contains(
        (message.destination.id, message.payload.owner_id, message.payload.packet_uid),
    )
}

/// One step of the retransmission loop: looks the acknowledgment up in the
/// ledger, reads the clock, and decides by [`retransmit_rule`]. Whatever
/// the clock says, an acknowledged message is never sent again and an
/// unacknowledged one is never dropped.
pub fn retransmit_step(
    ledger: &AccessDeliveredSet,
    message: &Message,
    phase: RetransmitPhase,
) -> (action: RetransmitAction)
    ensures
        exists|elapsed_ms: u128|
            action == #[trigger] retransmit_rule(
                phase,
                is_acknowledged(ledger, message),
                elapsed_ms,
            ),
        is_acknowledged(ledger, message) ==> action != RetransmitAction::Resend,
        !is_acknowledged(ledger, message) ==> action != RetransmitAction::Drop,
{
    let acknowledged = ledger.contains(
        message.destination.id,
        message.payload.owner_id,
        message.payload.packet_uid,
    );
    let elapsed = message.sending_time.elapsed();
    let elapsed_ms = elapsed.as_millis();
    let action = retransmit_action(phase, acknowledged, elapsed_ms);
    assert(action == retransmit_rule(phase, is_acknowledged(ledger, message), elapsed_ms));
    action
}

} // verus!
