use udp_ping::packet::{
    rand_message, DecodeError, Packet, Type, HEADER_BYTES, MSG_BYTES, PKT_SIZE, REQTYPE_BYTES,
    SEQ_BYTES, TIMESTAMP_BYTES,
};
use udp_ping::sequence::SequenceGenerator;

fn name_message() -> [u8; MSG_BYTES] {
    let mut message = [0u8; MSG_BYTES];
    message[..22].copy_from_slice(b"HenriqueCoutinhoLayber");
    message
}

fn sample() -> Packet {
    let mut message = [0u8; MSG_BYTES];
    for (i, byte) in message.iter_mut().enumerate() {
        *byte = 100 + i as u8;
    }
    Packet {
        seq: [0x01, 0x02, 0x03, 0x04, 0x05],
        type_: Type::Pong,
        timestamp: [0xa1, 0xb2, 0xc3, 0xd4],
        message,
    }
}

#[test]
fn sequential_packets() {
    let mut generator = SequenceGenerator::new();
    for i in 0..10u8 {
        let pkt = generator.next_packet();
        assert_eq!(pkt.seq[0], i);
    }
}

#[test]
fn sizes_add_up_to_forty() {
    assert_eq!(SEQ_BYTES, 5);
    assert_eq!(REQTYPE_BYTES, 1);
    assert_eq!(TIMESTAMP_BYTES, 4);
    assert_eq!(MSG_BYTES, 30);
    assert_eq!(PKT_SIZE, 40);
    assert_eq!(HEADER_BYTES, 10);
}

#[test]
fn message_is_the_name_then_zeros() {
    assert_eq!(rand_message(0), name_message());
    assert_eq!(rand_message(7), name_message());
    assert_eq!(&rand_message(1)[22..], &[0u8; 8]);
}

#[test]
fn new_ping_has_index_as_sequence() {
    let pkt = Packet::new(0x0102_0304_05);
    assert_eq!(pkt.seq, [0x05, 0x04, 0x03, 0x02, 0x01]);
    assert_eq!(pkt.type_, Type::Ping);
    assert_eq!(pkt.timestamp, [2, 2, 2, 2]);
    assert_eq!(pkt.message, name_message());
    assert_eq!(pkt.sequence(), 0x0102_0304_05);
    assert_eq!(pkt.sent_at(), 0x0202_0202);
}

#[test]
fn new_ping_keeps_the_low_forty_bits() {
    let pkt = Packet::new(0x0007_0000_0000_002a);
    assert_eq!(pkt.seq, [0x2a, 0, 0, 0, 0]);
    assert_eq!(pkt.sequence(), 0x2a);
    let top = Packet::new(0xff_ffff_ffff);
    assert_eq!(top.seq, [0xff; 5]);
    assert_eq!(top.sequence(), 0xff_ffff_ffff);
}

#[test]
fn encode_lays_the_fields_out_in_order() {
    let bytes = sample().encode();
    assert_eq!(bytes.len(), 40);
    assert_eq!(&bytes[0..5], &[0x01, 0x02, 0x03, 0x04, 0x05]);
    assert_eq!(bytes[5], 0);
    assert_eq!(&bytes[6..10], &[0xa1, 0xb2, 0xc3, 0xd4]);
    for i in 0..30 {
        assert_eq!(bytes[10 + i], 100 + i as u8);
    }
}

#[test]
fn encode_marks_a_ping_with_one() {
    let mut pkt = sample();
    pkt.type_ = Type::Ping;
    assert_eq!(pkt.encode()[5], 1);
    assert_eq!(Packet::new(3).encode()[5], 1);
}

#[test]
fn decode_reads_the_fields_back() {
    let mut bytes = vec![0u8; 40];
    bytes[0] = 9;
    bytes[4] = 1;
    bytes[5] = 1;
    bytes[6] = 0x10;
    bytes[9] = 0x20;
    bytes[10] = 0xaa;
    bytes[39] = 0xbb;
    let pkt = Packet::decode(&bytes).unwrap();
    assert_eq!(pkt.seq, [9, 0, 0, 0, 1]);
    assert_eq!(pkt.type_, Type::Ping);
    assert_eq!(pkt.timestamp, [0x10, 0, 0, 0x20]);
    assert_eq!(pkt.message[0], 0xaa);
    assert_eq!(pkt.message[1], 0);
    assert_eq!(pkt.message[29], 0xbb);
    assert_eq!(pkt.sequence(), 9 + (1u64 << 32));
    assert_eq!(pkt.sent_at(), 0x2000_0010);
}

#[test]
fn decode_keeps_the_payload_in_place() {
    let mut bytes = vec![0u8; 40];
    for i in 0..30 {
        bytes[10 + i] = i as u8 + 1;
    }
    let pkt = Packet::decode(&bytes).unwrap();
    for i in 0..30 {
        assert_eq!(pkt.message[i], i as u8 + 1);
    }
}

#[test]
fn decode_then_encode_gives_the_bytes_back() {
    let mut bytes = vec![0u8; 40];
    for (i, byte) in bytes.iter_mut().enumerate() {
        *byte = (i as u8).wrapping_mul(37).wrapping_add(11);
    }
    for kind in 0..2u8 {
        bytes[5] = kind;
        let pkt = Packet::decode(&bytes).unwrap();
        assert_eq!(pkt.encode(), bytes);
    }
}

#[test]
fn encode_then_decode_gives_the_packet_back() {
    let pkt = sample();
    assert_eq!(Packet::decode(&pkt.encode()), Ok(pkt));
    let ping = Packet::new(77);
    assert_eq!(Packet::decode(&ping.encode()), Ok(ping));
}

#[test]
fn decode_rejects_a_short_datagram() {
    assert_eq!(Packet::decode(&[]), Err(DecodeError::InvalidSize));
    assert_eq!(Packet::decode(&[0u8; 9]), Err(DecodeError::InvalidSize));
    let mut nine = [0u8; 9];
    nine[5] = 7;
    assert_eq!(Packet::decode(&nine), Err(DecodeError::InvalidSize));
}

#[test]
fn decode_pads_a_short_payload_with_zeros() {
    let header = [1u8, 0, 0, 0, 0, 0, 5, 6, 7, 8];
    let pkt = Packet::decode(&header).unwrap();
    assert_eq!(pkt.seq, [1, 0, 0, 0, 0]);
    assert_eq!(pkt.type_, Type::Pong);
    assert_eq!(pkt.timestamp, [5, 6, 7, 8]);
    assert_eq!(pkt.message, [0u8; 30]);

    let mut longer = header.to_vec();
    longer.extend_from_slice(&[0xde, 0xad]);
    let pkt = Packet::decode(&longer).unwrap();
    assert_eq!(pkt.message[0], 0xde);
    assert_eq!(pkt.message[1], 0xad);
    assert_eq!(&pkt.message[2..], &[0u8; 28]);
}

#[test]
fn decode_ignores_what_follows_the_fortieth_byte() {
    let mut bytes = sample().encode();
    bytes.extend_from_slice(&[0xff; 12]);
    assert_eq!(Packet::decode(&bytes), Ok(sample()));
}

#[test]
fn decode_rejects_an_unknown_kind() {
    let mut bytes = sample().encode();
    bytes[5] = 2;
    assert_eq!(Packet::decode(&bytes), Err(DecodeError::InvalidType));
    bytes[5] = 0xff;
    assert_eq!(Packet::decode(&bytes), Err(DecodeError::InvalidType));
}

#[test]
fn conversions_agree_with_encode_and_decode() {
    let pkt = sample();
    let bytes: Vec<u8> = pkt.into();
    assert_eq!(bytes, pkt.encode());
    assert_eq!(Vec::<u8>::from(pkt), bytes);
    assert_eq!(Packet::try_from(bytes), Ok(pkt));
    assert_eq!(Packet::try_from(vec![0u8; 3]), Err(DecodeError::InvalidSize));
    let mut wrong = pkt.encode();
    wrong[5] = 9;
    assert_eq!(Packet::try_from(wrong), Err(DecodeError::InvalidType));
}

#[test]
fn packets_are_equal_when_every_field_is() {
    let pkt = sample();
    assert!(pkt == sample());
    let mut other = sample();
    other.seq[4] = 0;
    assert!(pkt != other);
    let mut other = sample();
    other.type_ = Type::Ping;
    assert!(pkt != other);
    let mut other = sample();
    other.timestamp[0] = 0;
    assert!(pkt != other);
    let mut other = sample();
    other.message[29] = 0;
    assert!(pkt != other);
}
