use broadcast_stack::codec::{
    datagram_from, decode, encode, fits_in_datagram, kind_of_tag, payload_from, tag_of_kind,
    CodecError, MAX_UDP_PAYLOAD_SIZE,
};
use broadcast_stack::udp::{Payload, PayloadKind};

fn sample() -> Payload {
    Payload {
        owner_id: 1,
        sender_id: 0x0a0b0c0d,
        packet_uid: 258,
        kind: PayloadKind::Urb,
        vector_clock: vec![0, 0x01020304],
        buffer: b"42".to_vec(),
    }
}

fn sample_bytes() -> Vec<u8> {
    vec![
        1, 0, 0, 0, // owner_id
        0x0d, 0x0c, 0x0b, 0x0a, // sender_id
        2, 1, 0, 0, // packet_uid
        4, 0, 0, 0, // kind
        2, 0, 0, 0, 0, 0, 0, 0, // length of the clock
        0, 0, 0, 0, 4, 3, 2, 1, // clock
        2, 0, 0, 0, 0, 0, 0, 0, // length of the buffer
        b'4', b'2', // buffer
    ]
}

#[test]
fn encode_writes_little_endian_fields_in_order() {
    assert_eq!(encode(&sample()), Ok(sample_bytes()));
}

#[test]
fn encode_agrees_with_the_serializer_on_a_tuple() {
    let payload = sample();
    let reference = bincode::serialize(&(
        payload.owner_id,
        payload.sender_id,
        payload.packet_uid,
        4u32,
        &payload.vector_clock,
        &payload.buffer,
    ))
    .unwrap();
    assert_eq!(encode(&payload), Ok(reference));
}

#[test]
fn encode_of_an_empty_payload_is_thirty_two_bytes() {
    let payload = Payload {
        owner_id: 0,
        sender_id: 0,
        packet_uid: 0,
        kind: PayloadKind::Ack,
        vector_clock: vec![],
        buffer: vec![],
    };
    assert_eq!(encode(&payload), Ok(vec![0u8; 32]));
}

#[test]
fn decode_reads_what_encode_wrote() {
    assert_eq!(decode(&sample_bytes()), Ok(sample()));
    for kind in [
        PayloadKind::Ack,
        PayloadKind::Tcp,
        PayloadKind::Beb,
        PayloadKind::Rb,
        PayloadKind::Urb,
        PayloadKind::Fifob,
    ] {
        let mut payload = sample();
        payload.kind = kind;
        payload.owner_id = u32::MAX;
        let bytes = encode(&payload).unwrap();
        assert_eq!(decode(&bytes), Ok(payload));
    }
}

#[test]
fn decode_ignores_what_follows_the_payload() {
    let mut bytes = sample_bytes();
    bytes.extend_from_slice(&[9, 9, 9]);
    assert_eq!(decode(&bytes), Ok(sample()));
}

#[test]
fn decode_rejects_truncated_bytes() {
    let bytes = sample_bytes();
    for length in 0..bytes.len() {
        assert_eq!(decode(&bytes[..length]), Err(CodecError::MalformedPayload));
    }
}

#[test]
fn decode_rejects_an_unknown_kind() {
    let mut bytes = sample_bytes();
    bytes[12] = 6;
    assert_eq!(decode(&bytes), Err(CodecError::MalformedPayload));
    bytes[12] = 0;
    bytes[15] = 1;
    assert_eq!(decode(&bytes), Err(CodecError::MalformedPayload));
}

#[test]
fn decode_rejects_a_length_beyond_the_bytes() {
    let mut bytes = sample_bytes();
    bytes[16] = 3;
    assert_eq!(decode(&bytes), Err(CodecError::MalformedPayload));
    let mut bytes = sample_bytes();
    bytes[23] = 0xff;
    assert_eq!(decode(&bytes), Err(CodecError::MalformedPayload));
}

#[test]
fn kinds_have_the_tags_zero_to_five() {
    assert_eq!(tag_of_kind(PayloadKind::Ack), 0);
    assert_eq!(tag_of_kind(PayloadKind::Tcp), 1);
    assert_eq!(tag_of_kind(PayloadKind::Beb), 2);
    assert_eq!(tag_of_kind(PayloadKind::Rb), 3);
    assert_eq!(tag_of_kind(PayloadKind::Urb), 4);
    assert_eq!(tag_of_kind(PayloadKind::Fifob), 5);
    for tag in 0..6 {
        assert_eq!(tag_of_kind(kind_of_tag(tag).unwrap()), tag);
    }
    assert_eq!(kind_of_tag(6), None);
    assert_eq!(kind_of_tag(u32::MAX), None);
}

#[test]
fn largest_payload_that_fits_is_encoded() {
    let mut payload = sample();
    payload.vector_clock = vec![];
    payload.buffer = vec![7; MAX_UDP_PAYLOAD_SIZE - 32];
    assert!(fits_in_datagram(&payload));
    let bytes = encode(&payload).unwrap();
    assert_eq!(bytes.len(), MAX_UDP_PAYLOAD_SIZE);
    assert_eq!(decode(&bytes), Ok(payload));
}

#[test]
fn payload_one_byte_too_long_is_turned_down() {
    let mut payload = sample();
    payload.vector_clock = vec![];
    payload.buffer = vec![7; MAX_UDP_PAYLOAD_SIZE - 31];
    assert!(!fits_in_datagram(&payload));
    assert_eq!(encode(&payload), Err(CodecError::DatagramTooLarge));
}

#[test]
fn clock_counts_four_bytes_a_number() {
    let mut payload = sample();
    payload.buffer = vec![];
    payload.vector_clock = vec![1; (MAX_UDP_PAYLOAD_SIZE - 32) / 4];
    assert!(fits_in_datagram(&payload));
    assert_eq!(encode(&payload).unwrap().len(), 32 + 4 * ((MAX_UDP_PAYLOAD_SIZE - 32) / 4));
    payload.vector_clock.push(1);
    assert!(!fits_in_datagram(&payload));
    assert_eq!(encode(&payload), Err(CodecError::DatagramTooLarge));
}

#[test]
fn datagram_from_maps_each_answer_of_the_serializer() {
    assert_eq!(datagram_from(Ok(vec![1, 2, 3])), Ok(vec![1, 2, 3]));
    assert_eq!(
        datagram_from(Ok(vec![0; MAX_UDP_PAYLOAD_SIZE])),
        Ok(vec![0; MAX_UDP_PAYLOAD_SIZE])
    );
    assert_eq!(
        datagram_from(Ok(vec![0; MAX_UDP_PAYLOAD_SIZE + 1])),
        Err(CodecError::DatagramTooLarge)
    );
    assert_eq!(
        datagram_from(Err(Box::new(bincode::ErrorKind::SizeLimit))),
        Err(CodecError::Unencodable)
    );
}

#[test]
fn payload_from_maps_each_answer_of_the_deserializer() {
    assert_eq!(
        payload_from(Ok((1, 2, 3, 5, vec![4], vec![5]))),
        Ok(Payload {
            owner_id: 1,
            sender_id: 2,
            packet_uid: 3,
            kind: PayloadKind::Fifob,
            vector_clock: vec![4],
            buffer: vec![5],
        })
    );
    assert_eq!(
        payload_from(Ok((1, 2, 3, 6, vec![4], vec![5]))),
        Err(CodecError::MalformedPayload)
    );
    assert_eq!(
        payload_from(Err(Box::new(bincode::ErrorKind::SizeLimit))),
        Err(CodecError::MalformedPayload)
    );
}
