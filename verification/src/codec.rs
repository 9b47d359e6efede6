//! The wire codec: a payload as the bytes of one datagram, and back.
//!
//! The bytes are those of `bincode` in its default configuration: integers
//! of fixed width in little-endian order, a sequence as its length in eight
//! bytes followed by its elements, a field after the other.

use crate::udp::{Payload, PayloadKind, PayloadView};
use vstd::bytes::{
    lemma_auto_spec_u32_to_from_le_bytes,
    lemma_auto_spec_u64_to_from_le_bytes,
    spec_u32_from_le_bytes,
    spec_u32_to_le_bytes,
    spec_u64_from_le_bytes,
    spec_u64_to_le_bytes,
};
use vstd::prelude::*;

verus! {

/// The largest datagram that the transport carries.
pub const MAX_UDP_PAYLOAD_SIZE: usize = 65535;

/// Why a payload did not become a datagram, or a datagram a payload.
#[derive(Debug, Clone, Copy, PartialEq, Eq, Structural)]
pub enum CodecError {
    /// The bytes do not start with the encoding of any payload.
    MalformedPayload,
    /// The encoding is longer than one datagram.
    DatagramTooLarge,
    /// The serializer answered with an error. It has none for the fields of
    /// a payload, so encoding never ends this way.
    Unencodable,
}

/// The number that stands for a kind on the wire.
pub open spec fn kind_tag(kind: PayloadKind) -> u32 {
    match kind {
        PayloadKind::Ack => 0,
        PayloadKind::Tcp => 1,
        PayloadKind::Beb => 2,
        PayloadKind::Rb => 3,
        PayloadKind::Urb => 4,
        PayloadKind::Fifob => 5,
    }
}

/// The kind that a number on the wire stands for, if it stands for one.
pub open spec fn tag_kind(tag: u32) -> Option<PayloadKind> {
    if tag == 0 {
        Some(PayloadKind::Ack)
    } else if tag == 1 {
        Some(PayloadKind::Tcp)
    } else if tag == 2 {
        Some(PayloadKind::Beb)
    } else if tag == 3 {
        Some(PayloadKind::Rb)
    } else if tag == 4 {
        Some(PayloadKind::Urb)
    } else if tag == 5 {
        Some(PayloadKind::Fifob)
    } else {
        None
    }
}

/// The payload that six decoded fields make up, if the fourth is the
/// number of a kind.
pub open spec fn payload_of_fields(
    owner_id: u32,
    sender_id: u32,
    packet_uid: u32,
    tag: u32,
    clock: Seq<u32>,
    buffer: Seq<u8>,
) -> Option<PayloadView> {
    match tag_kind(tag) {
        Some(kind) => Some(
            PayloadView { owner_id, sender_id, packet_uid, kind, vector_clock: clock, buffer },
        ),
        None => None,
    }
}

/// The numbers of a vector clock, four bytes each.
pub open spec fn clock_image(clock: Seq<u32>) -> Seq<u8>
    decreases clock.len(),
{
    if clock.len() == 0 {
        Seq::empty()
    } else {
        clock_image(clock.drop_last()) + spec_u32_to_le_bytes(clock.last())
    }
}

/// The encoding of the six fields of a payload.
pub open spec fn wire_image(
    owner_id: u32,
    sender_id: u32,
    packet_uid: u32,
    tag: u32,
    clock: Seq<u32>,
    buffer: Seq<u8>,
) -> Seq<u8> {
    spec_u32_to_le_bytes(owner_id) + spec_u32_to_le_bytes(sender_id) + spec_u32_to_le_bytes(
        packet_uid,
    ) + spec_u32_to_le_bytes(tag) + spec_u64_to_le_bytes(clock.len() as u64) + clock_image(clock)
        + spec_u64_to_le_bytes(buffer.len() as u64) + buffer
}

/// The encoding of a payload.
pub open spec fn payload_image(payload: PayloadView) -> Seq<u8> {
    wire_image(
        payload.owner_id,
        payload.sender_id,
        payload.packet_uid,
        kind_tag(payload.kind),
        payload.vector_clock,
        payload.buffer,
    )
}

/// A vector clock takes four bytes for each number, and the bytes of the
/// number at `index` stand at four times `index`.
pub proof fn lemma_clock_image(clock: Seq<u32>, index: int)
    requires
        0 <= index < clock.len(),
    ensures
        clock_image(clock).len() == 4 * clock.len(),
        clock_image(clock).subrange(4 * index, 4 * index + 4) == spec_u32_to_le_bytes(
            clock[index],
        ),
    decreases clock.len(),
{
    lemma_auto_spec_u32_to_from_le_bytes();
    lemma_clock_image_len(clock.drop_last());
    let front = clock_image(clock.drop_last());
    let back = spec_u32_to_le_bytes(clock.last());
    if index == clock.len() - 1 {
        assert((front + back).subrange(4 * index, 4 * index + 4) =~= back);
    } else {
        lemma_clock_image(clock.drop_last(), index);
        assert((front + back).subrange(4 * index, 4 * index + 4) =~= front.subrange(
            4 * index,
            4 * index + 4,
        ));
    }
}

/// A vector clock takes four bytes for each number.
pub proof fn lemma_clock_image_len(clock: Seq<u32>)
    ensures
        clock_image(clock).len() == 4 * clock.len(),
    decreases clock.len(),
{
    lemma_auto_spec_u32_to_from_le_bytes();
    if clock.len() > 0 {
        lemma_clock_image_len(clock.drop_last());
    }
}

/// The length of an encoding: thirty-two bytes of fixed fields and lengths,
/// four for each number of the clock, one for each byte of the buffer.
pub proof fn lemma_wire_image_len(
    owner_id: u32,
    sender_id: u32,
    packet_uid: u32,
    tag: u32,
    clock: Seq<u32>,
    buffer: Seq<u8>,
)
    ensures
        wire_image(owner_id, sender_id, packet_uid, tag, clock, buffer).len() == 32 + 4
            * clock.len() + buffer.len(),
{
    lemma_auto_spec_u32_to_from_le_bytes();
    lemma_auto_spec_u64_to_from_le_bytes();
    lemma_clock_image_len(clock);
}

/// Two clocks of one length with the same bytes are the same clock.
proof fn lemma_clock_image_is_injective(first: Seq<u32>, second: Seq<u32>)
    requires
        first.len() == second.len(),
        clock_image(first) == clock_image(second),
    ensures
        first == second,
{
    lemma_auto_spec_u32_to_from_le_bytes();
    assert forall|index: int| 0 <= index < first.len() implies first[index] == second[index] by {
        lemma_clock_image(first, index);
        lemma_clock_image(second, index);
        assert(spec_u32_to_le_bytes(first[index]).len() == 4);
        assert(spec_u32_to_le_bytes(second[index]).len() == 4);
        assert(spec_u32_from_le_bytes(spec_u32_to_le_bytes(first[index])) == first[index]);
        assert(spec_u32_from_le_bytes(spec_u32_to_le_bytes(second[index])) == second[index]);
    }
    assert(first =~= second);
}

/// Where each field stands in an encoding.
proof fn lemma_wire_image_layout(
    owner_id: u32,
    sender_id: u32,
    packet_uid: u32,
    tag: u32,
    clock: Seq<u32>,
    buffer: Seq<u8>,
)
    ensures
        ({
            let image = wire_image(owner_id, sender_id, packet_uid, tag, clock, buffer);
            let clock_end = (24 + 4 * clock.len()) as int;
            &&& image.len() == clock_end + 8 + buffer.len()
            &&& image.subrange(0, 4) == spec_u32_to_le_bytes(owner_id)
            &&& image.subrange(4, 8) == spec_u32_to_le_bytes(sender_id)
            &&& image.subrange(8, 12) == spec_u32_to_le_bytes(packet_uid)
            &&& image.subrange(12, 16) == spec_u32_to_le_bytes(tag)
            &&& image.subrange(16, 24) == spec_u64_to_le_bytes(clock.len() as u64)
            &&& image.subrange(24, clock_end) == clock_image(clock)
            &&& image.subrange(clock_end, clock_end + 8) == spec_u64_to_le_bytes(
                buffer.len() as u64,
            )
            &&& image.subrange(clock_end + 8, clock_end + 8 + buffer.len()) == buffer
        }),
{
    lemma_auto_spec_u32_to_from_le_bytes();
    lemma_auto_spec_u64_to_from_le_bytes();
    lemma_clock_image_len(clock);
    let image = wire_image(owner_id, sender_id, packet_uid, tag, clock, buffer);
    let clock_end = (24 + 4 * clock.len()) as int;
    assert(image.subrange(0, 4) =~= spec_u32_to_le_bytes(owner_id));
    assert(image.subrange(4, 8) =~= spec_u32_to_le_bytes(sender_id));
    assert(image.subrange(8, 12) =~= spec_u32_to_le_bytes(packet_uid));
    assert(image.subrange(12, 16) =~= spec_u32_to_le_bytes(tag));
    assert(image.subrange(16, 24) =~= spec_u64_to_le_bytes(clock.len() as u64));
    assert(image.subrange(24, clock_end) =~= clock_image(clock));
    assert(image.subrange(clock_end, clock_end + 8) =~= spec_u64_to_le_bytes(
        buffer.len() as u64,
    ));
    assert(image.subrange(clock_end + 8, clock_end + 8 + buffer.len()) =~= buffer);
}

/// Two sequences that begin the same bytes agree wherever both reach.
proof fn lemma_prefixes_agree(bytes: Seq<u8>, first: Seq<u8>, second: Seq<u8>, from: int, to: int)
    requires
        first.is_prefix_of(bytes),
        second.is_prefix_of(bytes),
        0 <= from <= to <= first.len(),
        to <= second.len(),
    ensures
        first.subrange(from, to) == second.subrange(from, to),
{
    assert(first.subrange(from, to) =~= bytes.subrange(from, to));
    assert(second.subrange(from, to) =~= bytes.subrange(from, to));
}

/// The fields that a sequence of bytes starts with are unique: two
/// encodings that both begin the same bytes encode the same fields.
pub proof fn lemma_fields_are_unique(
    bytes: Seq<u8>,
    first: (u32, u32, u32, u32, Seq<u32>, Seq<u8>),
    second: (u32, u32, u32, u32, Seq<u32>, Seq<u8>),
)
    requires
        bytes.len() <= u64::MAX,
        wire_image(first.0, first.1, first.2, first.3, first.4, first.5).is_prefix_of(bytes),
        wire_image(second.0, second.1, second.2, second.3, second.4, second.5).is_prefix_of(
            bytes,
        ),
    ensures
        first == second,
{
    lemma_auto_spec_u32_to_from_le_bytes();
    lemma_auto_spec_u64_to_from_le_bytes();
    let a = wire_image(first.0, first.1, first.2, first.3, first.4, first.5);
    let b = wire_image(second.0, second.1, second.2, second.3, second.4, second.5);
    lemma_wire_image_layout(first.0, first.1, first.2, first.3, first.4, first.5);
    lemma_wire_image_layout(second.0, second.1, second.2, second.3, second.4, second.5);
    lemma_prefixes_agree(bytes, a, b, 0, 4);
    lemma_prefixes_agree(bytes, a, b, 4, 8);
    lemma_prefixes_agree(bytes, a, b, 8, 12);
    lemma_prefixes_agree(bytes, a, b, 12, 16);
    lemma_prefixes_agree(bytes, a, b, 16, 24);
    assert(first.0 == second.0) by {
        assert(spec_u32_from_le_bytes(spec_u32_to_le_bytes(first.0)) == first.0);
        assert(spec_u32_from_le_bytes(spec_u32_to_le_bytes(second.0)) == second.0);
    }
    assert(first.1 == second.1) by {
        assert(spec_u32_from_le_bytes(spec_u32_to_le_bytes(first.1)) == first.1);
        assert(spec_u32_from_le_bytes(spec_u32_to_le_bytes(second.1)) == second.1);
    }
    assert(first.2 == second.2) by {
        assert(spec_u32_from_le_bytes(spec_u32_to_le_bytes(first.2)) == first.2);
        assert(spec_u32_from_le_bytes(spec_u32_to_le_bytes(second.2)) == second.2);
    }
    assert(first.3 == second.3) by {
        assert(spec_u32_from_le_bytes(spec_u32_to_le_bytes(first.3)) == first.3);
        assert(spec_u32_from_le_bytes(spec_u32_to_le_bytes(second.3)) == second.3);
    }
    assert(first.4.len() == second.4.len()) by {
        assert(spec_u64_from_le_bytes(spec_u64_to_le_bytes(first.4.len() as u64))
            == first.4.len());
        assert(spec_u64_from_le_bytes(spec_u64_to_le_bytes(second.4.len() as u64))
            == second.4.len());
    }
    let clock_end = (24 + 4 * first.4.len()) as int;
    lemma_prefixes_agree(bytes, a, b, 24, clock_end);
    lemma_clock_image_is_injective(first.4, second.4);
    lemma_prefixes_agree(bytes, a, b, clock_end, clock_end + 8);
    assert(first.5.len() == second.5.len()) by {
        assert(spec_u64_from_le_bytes(spec_u64_to_le_bytes(first.5.len() as u64))
            == first.5.len());
        assert(spec_u64_from_le_bytes(spec_u64_to_le_bytes(second.5.len() as u64))
            == second.5.len());
    }
    lemma_prefixes_agree(bytes, a, b, clock_end + 8, clock_end + 8 + first.5.len());
}

/// Decoding is unique: the bytes of a datagram begin with the encoding of
/// at most one payload. So a payload that was encoded is the one that
/// decoding finds, whatever follows its bytes.
pub proof fn law_decoding_is_unique(bytes: Seq<u8>, first: PayloadView, second: PayloadView)
    requires
        bytes.len() <= u64::MAX,
        payload_image(first).is_prefix_of(bytes),
        payload_image(second).is_prefix_of(bytes),
    ensures
        first == second,
{
    lemma_fields_are_unique(
        bytes,
        (
            first.owner_id,
            first.sender_id,
            first.packet_uid,
            kind_tag(first.kind),
            first.vector_clock,
            first.buffer,
        ),
        (
            second.owner_id,
            second.sender_id,
            second.packet_uid,
            kind_tag(second.kind),
            second.vector_clock,
            second.buffer,
        ),
    );
}

/// The number that stands for a kind on the wire.
pub fn tag_of_kind(kind: PayloadKind) -> (tag: u32)
    ensures
        tag == kind_tag(kind),
{
    match kind {
        PayloadKind::Ack => 0,
        PayloadKind::Tcp => 1,
        PayloadKind::Beb => 2,
        PayloadKind::Rb => 3,
        PayloadKind::Urb => 4,
        PayloadKind::Fifob => 5,
    }
}

/// The kind that a number on the wire stands for, if it stands for one.
pub fn kind_of_tag(tag: u32) -> (kind: Option<PayloadKind>)
    ensures
        kind == tag_kind(tag),
{
    match tag {
        0 => Some(PayloadKind::Ack),
        1 => Some(PayloadKind::Tcp),
        2 => Some(PayloadKind::Beb),
        3 => Some(PayloadKind::Rb),
        4 => Some(PayloadKind::Urb),
        5 => Some(PayloadKind::Fifob),
        _ => None,
    }
}

/// The error type of `bincode`, whose values the codec only tells from
/// success.
#[verifier::external_type_specification]
#[verifier::external_body]
pub struct ExBincodeErrorKind(bincode::ErrorKind);

/// `bincode::serialize` on the six fields of a payload, as a tuple. With its
/// default configuration the function writes every `u32` as four bytes in
/// little-endian order, the fields of a tuple one after the other, and a
/// vector as its length in eight little-endian bytes followed by its
/// elements. It fails only on a size limit, on a sequence of unknown length
/// or on a failing writer; the default configuration sets no limit, a vector
/// knows its length, and the writer is a vector. The contract claims that
/// it succeeds, and what the bytes are.
#[verifier::external_body]
fn bincode_serialize(
    owner_id: u32,
    sender_id: u32,
    packet_uid: u32,
    tag: u32,
    vector_clock: &Vec<u32>,
    buffer: &Vec<u8>,
) -> (result: Result<Vec<u8>, Box<bincode::ErrorKind>>)
    ensures
        result is Ok,
        result matches Ok(bytes) ==> bytes@ == wire_image(
            owner_id,
            sender_id,
            packet_uid,
            tag,
            vector_clock@,
            buffer@,
        ),
{
    bincode::serialize(&(owner_id, sender_id, packet_uid, tag, vector_clock, buffer))
}

/// `bincode::deserialize` for the six fields of a payload, as a tuple. The
/// function reads the fields in order as `bincode::serialize` writes them
/// and ignores what follows them; it fails where the bytes end before the
/// fields do. The contract claims that the fields it returns are encoded at
/// the start of the bytes, and that it fails only where no fields are.
#[verifier::external_body]
fn bincode_deserialize(bytes: &[u8]) -> (result: Result<
    (u32, u32, u32, u32, Vec<u32>, Vec<u8>),
    Box<bincode::ErrorKind>,
>)
    ensures
        match result {
            Ok(fields) => wire_image(
                fields.0,
                fields.1,
                fields.2,
                fields.3,
                fields.4@,
                fields.5@,
            ).is_prefix_of(bytes@),
            Err(_) => forall|
                owner_id: u32,
                sender_id: u32,
                packet_uid: u32,
                tag: u32,
                clock: Seq<u32>,
                buffer: Seq<u8>,
            |
                !(#[trigger] wire_image(
                    owner_id,
                    sender_id,
                    packet_uid,
                    tag,
                    clock,
                    buffer,
                )).is_prefix_of(bytes@),
        },
{
    bincode::deserialize(bytes)
}

/// Whether the encoding of a payload fits in one datagram.
pub fn fits_in_datagram(payload: &Payload) -> (fits: bool)
    ensures
        fits == (payload_image(payload@).len() <= MAX_UDP_PAYLOAD_SIZE),
{
    proof {
        lemma_wire_image_len(
            payload.owner_id,
            payload.sender_id,
            payload.packet_uid,
            kind_tag(payload.kind),
            payload.vector_clock@,
            payload.buffer@,
        );
    }
    let clock_len = payload.vector_clock.len();
    let buffer_len = payload.buffer.len();
    clock_len <= MAX_UDP_PAYLOAD_SIZE / 4 && buffer_len <= MAX_UDP_PAYLOAD_SIZE && 32 + 4
        * clock_len + buffer_len <= MAX_UDP_PAYLOAD_SIZE
}

/// What becomes of the serializer's answer: its bytes are the datagram if
/// they fit in one, and its error is reported as the payload being
/// unencodable.
pub fn datagram_from(serialized: Result<Vec<u8>, Box<bincode::ErrorKind>>) -> (result: Result<
    Vec<u8>,
    CodecError,
>)
    ensures
        match serialized {
            Ok(bytes) => if bytes@.len() <= MAX_UDP_PAYLOAD_SIZE {
                result == Ok::<Vec<u8>, CodecError>(bytes)
            } else {
                result == Err::<Vec<u8>, CodecError>(CodecError::DatagramTooLarge)
            },
            Err(_) => result == Err::<Vec<u8>, CodecError>(CodecError::Unencodable),
        },
{
    match serialized {
        Ok(bytes) => {
            if bytes.len() <= MAX_UDP_PAYLOAD_SIZE {
                Ok(bytes)
            } else {
                Err(CodecError::DatagramTooLarge)
            }
        },
        Err(_) => Err(CodecError::Unencodable),
    }
}

/// Encodes a payload as the bytes of one datagram. A payload whose
/// encoding is longer than a datagram is turned down before any byte is
/// written; every other payload is encoded.
pub fn encode(payload: &Payload) -> (result: Result<Vec<u8>, CodecError>)
    ensures
        result is Ok <==> payload_image(payload@).len() <= MAX_UDP_PAYLOAD_SIZE,
        match result {
            Ok(bytes) => bytes@ == payload_image(payload@),
            Err(error) => error == CodecError::DatagramTooLarge,
        },
{
    if !fits_in_datagram(payload) {
        return Err(CodecError::DatagramTooLarge);
    }
    datagram_from(
        bincode_serialize(
            payload.owner_id,
            payload.sender_id,
            payload.packet_uid,
            tag_of_kind(payload.kind),
            &payload.vector_clock,
            &payload.buffer,
        ),
    )
}

/// What becomes of the deserializer's answer: fields with the number of a
/// kind are a payload; anything else is malformed.
pub fn payload_from(
    deserialized: Result<(u32, u32, u32, u32, Vec<u32>, Vec<u8>), Box<bincode::ErrorKind>>,
) -> (result: Result<Payload, CodecError>)
    ensures
        match deserialized {
            Ok(fields) => match payload_of_fields(
                fields.0,
                fields.1,
                fields.2,
                fields.3,
                fields.4@,
                fields.5@,
            ) {
                Some(view) => result matches Ok(payload) && payload@ == view,
                None => result matches Err(CodecError::MalformedPayload),
            },
            Err(_) => result matches Err(CodecError::MalformedPayload),
        },
{
    match deserialized {
        Ok((owner_id, sender_id, packet_uid, tag, vector_clock, buffer)) => {
            match kind_of_tag(tag) {
                Some(kind) => Ok(
                    Payload { owner_id, sender_id, packet_uid, kind, vector_clock, buffer },
                ),
                None => Err(CodecError::MalformedPayload),
            }
        },
        Err(_) => Err(CodecError::MalformedPayload),
    }
}

/// Decodes the payload that a datagram starts with. Bytes that follow the
/// payload are ignored; bytes that start with no payload are malformed.
pub fn decode(bytes: &[u8]) -> (result: Result<Payload, CodecError>)
    ensures
        match result {
            Ok(payload) => payload_image(payload@).is_prefix_of(bytes@),
            Err(error) => error == CodecError::MalformedPayload && forall|any: PayloadView|
                !(#[trigger] payload_image(any)).is_prefix_of(bytes@),
        },
{
    let deserialized = bincode_deserialize(bytes);
    let ghost answer = deserialized;
    assert(bytes@.len() == bytes.len());
    let result = payload_from(deserialized);
    proof {
        if result is Err {
            assert forall|any: PayloadView| !(#[trigger] payload_image(any)).is_prefix_of(
                bytes@,
            ) by {
                if payload_image(any).is_prefix_of(bytes@) {
                    if let Ok(fields) = answer {
                        lemma_fields_are_unique(
                            bytes@,
                            (fields.0, fields.1, fields.2, fields.3, fields.4@, fields.5@),
                            (
                                any.owner_id,
                                any.sender_id,
                                any.packet_uid,
                                kind_tag(any.kind),
                                any.vector_clock,
                                any.buffer,
                            ),
                        );
                    }
                }
            }
        }
    }
    result
}

} // verus!
