//! The ping/pong packet and its fixed 40-byte wire format.
//!
//! | offset | length | field     | encoding                     |
//! |--------|--------|-----------|------------------------------|
//! | 0      | 5      | sequence  | unsigned, little-endian      |
//! | 5      | 1      | kind      | `1` for a ping, `0` for pong |
//! | 6      | 4      | timestamp | unsigned, little-endian      |
//! | 10     | 30     | payload   | raw bytes, zero-padded       |

use crate::util::{
    le_bytes, le_value, lemma_le_bytes_len, lemma_le_bytes_of_value, lemma_le_round_trip,
    lemma_le_value_bound, lemma_le_value_of_bytes, lemma_le_value_of_four, lemma_radix_values,
    seq_to_u64,
};
use vstd::prelude::*;

verus! {

pub const SEQ_BYTES: usize = 5;

pub const REQTYPE_BYTES: usize = 1;

pub const TIMESTAMP_BYTES: usize = 4;

pub const MSG_BYTES: usize = 30;

/// The size of every datagram on the wire.
pub const PKT_SIZE: usize = SEQ_BYTES + REQTYPE_BYTES + TIMESTAMP_BYTES + MSG_BYTES;

/// The bytes before the payload; a datagram shorter than this cannot be read.
pub const HEADER_BYTES: usize = PKT_SIZE - MSG_BYTES;

const NAME_LEN: usize = 22;

/// Which way a packet travels.
#[derive(Debug, Clone, Copy, PartialEq, Eq, Hash, Structural)]
pub enum Type {
    Ping,
    Pong,
}

/// The unit of exchange, held as the bytes that go on the wire.
#[derive(Debug, Clone, Copy, Hash)]
pub struct Packet {
    pub seq: [u8; 5],
    pub type_: Type,
    pub timestamp: [u8; 4],
    pub message: [u8; MSG_BYTES],
}

/// Why a datagram is not a packet.
#[derive(Debug, Clone, Copy, PartialEq, Eq, Hash, Structural)]
pub enum DecodeError {
    /// Fewer bytes than sequence, kind and timestamp take together.
    InvalidSize,
    /// The kind byte is neither `0` nor `1`.
    InvalidType,
}

impl DecodeError {
    /// The error in words.
    pub open spec fn text(self) -> Seq<char> {
        match self {
            DecodeError::InvalidSize => "Invalid packet size"@,
            DecodeError::InvalidType => "Invalid packet type"@,
        }
    }

    /// The error in words, for a log or a report.
    pub fn message(&self) -> (text: &'static str)
        ensures
            text@ == self.text(),
    {
        match self {
            DecodeError::InvalidSize => "Invalid packet size",
            DecodeError::InvalidType => "Invalid packet type",
        }
    }
}

/// What a packet means: its fields as numbers.
pub struct PacketView {
    pub sequence: nat,
    pub kind: Type,
    pub timestamp: nat,
    pub payload: Seq<u8>,
}

impl PacketView {
    /// The fields fit their places on the wire: 40 bits of sequence number,
    /// 32 bits of timestamp, 30 bytes of payload.
    pub open spec fn wf(self) -> bool {
        &&& self.sequence < 0x100_0000_0000
        &&& self.timestamp < 0x1_0000_0000
        &&& self.payload.len() == MSG_BYTES
    }
}

impl View for Packet {
    type V = PacketView;

    open spec fn view(&self) -> PacketView {
        PacketView {
            sequence: le_value(self.seq@),
            kind: self.type_,
            timestamp: le_value(self.timestamp@),
            payload: self.message@,
        }
    }
}

/// The byte that stands for `kind` on the wire.
pub open spec fn kind_byte(kind: Type) -> u8 {
    match kind {
        Type::Ping => 1,
        Type::Pong => 0,
    }
}

/// The first `width` bytes of `bytes`, with zeros where `bytes` has run out.
pub open spec fn zero_padded(bytes: Seq<u8>, width: nat) -> Seq<u8> {
    Seq::new(
        width,
        |i: int|
            if i < bytes.len() {
                bytes[i]
            } else {
                0u8
            },
    )
}

/// The datagram for a packet: sequence, kind, timestamp and payload, in that
/// order.
pub open spec fn wire(packet: PacketView) -> Seq<u8> {
    le_bytes(packet.sequence, SEQ_BYTES as nat) + seq![kind_byte(packet.kind)] + le_bytes(
        packet.timestamp,
        TIMESTAMP_BYTES as nat,
    ) + packet.payload
}

/// The packet that a datagram holds, or why it holds none.
///
/// Ten bytes are enough; a short payload is filled up with zeros, and bytes
/// past the fortieth are ignored.
pub open spec fn parse(bytes: Seq<u8>) -> Result<PacketView, DecodeError> {
    if bytes.len() < HEADER_BYTES {
        Err(DecodeError::InvalidSize)
    } else if bytes[SEQ_BYTES as int] > 1 {
        Err(DecodeError::InvalidType)
    } else {
        Ok(
            PacketView {
                sequence: le_value(bytes.subrange(0, SEQ_BYTES as int)),
                kind: if bytes[SEQ_BYTES as int] == 1 {
                    Type::Ping
                } else {
                    Type::Pong
                },
                timestamp: le_value(
                    bytes.subrange(SEQ_BYTES + REQTYPE_BYTES, HEADER_BYTES as int),
                ),
                payload: zero_padded(bytes.skip(HEADER_BYTES as int), MSG_BYTES as nat),
            },
        )
    }
}

/// The payload that every new ping carries: the 22 ASCII bytes of
/// `HenriqueCoutinhoLayber`, then zeros.
pub open spec fn fixed_message() -> Seq<u8> {
    zero_padded(
        seq![
            72u8, 101u8, 110u8, 114u8, 105u8, 113u8, 117u8, 101u8, 67u8, 111u8, 117u8, 116u8,
            105u8, 110u8, 104u8, 111u8, 76u8, 97u8, 121u8, 98u8, 101u8, 114u8,
        ],
        MSG_BYTES as nat,
    )
}

/// What a new ping for position `index` means: the sequence number is
/// `index` cut to its 40 low bits, each timestamp byte is `2`, and the
/// payload is the fixed message.
pub open spec fn ping_view(index: nat) -> PacketView {
    PacketView {
        sequence: index % 0x100_0000_0000,
        kind: Type::Ping,
        timestamp: 0x0202_0202,
        payload: fixed_message(),
    }
}

/// The packet with the given view. There is one for every view that a
/// packet has, and `lemma_view_injective` shows that there is no second.
pub open spec fn packet_of(view: PacketView) -> Packet {
    choose|packet: Packet| packet@ == view
}

/// Every packet's fields fit their places on the wire.
pub proof fn lemma_view_wf(packet: Packet)
    ensures
        packet@.wf(),
{
    lemma_radix_values();
    lemma_le_value_bound(packet.seq@);
    lemma_le_value_bound(packet.timestamp@);
}

/// A packet is what its fields mean: two packets with the same view are the
/// same packet.
pub proof fn lemma_view_injective(a: Packet, b: Packet)
    requires
        a@ == b@,
    ensures
        a == b,
{
    lemma_le_bytes_of_value(a.seq@);
    lemma_le_bytes_of_value(b.seq@);
    lemma_le_bytes_of_value(a.timestamp@);
    lemma_le_bytes_of_value(b.timestamp@);
    assert(a.seq =~= b.seq);
    assert(a.timestamp =~= b.timestamp);
    assert(a.message =~= b.message);
}

/// The datagram of every well-formed view is 40 bytes long.
pub proof fn lemma_wire_len(packet: PacketView)
    requires
        packet.wf(),
    ensures
        wire(packet).len() == PKT_SIZE,
{
    lemma_le_bytes_len(packet.sequence, SEQ_BYTES as nat);
    lemma_le_bytes_len(packet.timestamp, TIMESTAMP_BYTES as nat);
}

/// Decoding the datagram of any well-formed view gives that view back.
pub proof fn lemma_parse_wire(packet: PacketView)
    requires
        packet.wf(),
    ensures
        parse(wire(packet)) == Ok::<PacketView, DecodeError>(packet),
{
    let bytes = wire(packet);
    let sequence = le_bytes(packet.sequence, SEQ_BYTES as nat);
    let timestamp = le_bytes(packet.timestamp, TIMESTAMP_BYTES as nat);
    lemma_radix_values();
    lemma_le_bytes_len(packet.sequence, SEQ_BYTES as nat);
    lemma_le_bytes_len(packet.timestamp, TIMESTAMP_BYTES as nat);
    lemma_le_round_trip(packet.sequence, SEQ_BYTES as nat);
    lemma_le_round_trip(packet.timestamp, TIMESTAMP_BYTES as nat);
    assert(bytes.subrange(0, SEQ_BYTES as int) =~= sequence);
    assert(bytes.subrange(SEQ_BYTES + REQTYPE_BYTES, HEADER_BYTES as int) =~= timestamp);
    assert(zero_padded(bytes.skip(HEADER_BYTES as int), MSG_BYTES as nat) =~= packet.payload);
}

/// Structural round trip: decoding the datagram of a packet gives the packet
/// back, and no other packet.
pub proof fn lemma_decode_encode(packet: Packet)
    ensures
        parse(wire(packet@)) == Ok::<PacketView, DecodeError>(packet@),
        forall|decoded: Packet| decoded@ == packet@ ==> decoded == packet,
{
    lemma_view_wf(packet);
    lemma_parse_wire(packet@);
    assert forall|decoded: Packet| decoded@ == packet@ implies decoded == packet by {
        lemma_view_injective(decoded, packet);
    }
}

/// Wire round trip: a 40-byte datagram with a valid kind byte decodes, and
/// encoding what it decodes to gives the same 40 bytes.
pub proof fn lemma_encode_decode(bytes: Seq<u8>)
    requires
        bytes.len() == PKT_SIZE,
        bytes[SEQ_BYTES as int] <= 1,
    ensures
        parse(bytes) is Ok,
        wire(parse(bytes)->Ok_0) == bytes,
{
    lemma_le_bytes_of_value(bytes.subrange(0, SEQ_BYTES as int));
    lemma_le_bytes_of_value(bytes.subrange(SEQ_BYTES + REQTYPE_BYTES, HEADER_BYTES as int));
}

fn same_bytes(a: &[u8], b: &[u8]) -> (same: bool)
    ensures
        same == (a@ == b@),
{
    if a.len() != b.len() {
        return false;
    }
    let mut i: usize = 0;
    while i < a.len()
        invariant
            a@.len() == b@.len(),
            i <= a@.len(),
            forall|j: int| 0 <= j < i ==> a@[j] == b@[j],
        decreases a@.len() - i,
    {
        if a[i] != b[i] {
            return false;
        }
        i += 1;
    }
    assert(a@ =~= b@);
    true
}

fn append_bytes(out: &mut Vec<u8>, bytes: &[u8])
    ensures
        final(out)@ == old(out)@ + bytes@,
{
    let mut i: usize = 0;
    while i < bytes.len()
        invariant
            i <= bytes@.len(),
            out@ == old(out)@ + bytes@.take(i as int),
        decreases bytes@.len() - i,
    {
        out.push(bytes[i]);
        i += 1;
    }
}

impl PartialEq for Packet {
    fn eq(&self, other: &Self) -> (same: bool) {
        let same = same_bytes(self.seq.as_slice(), other.seq.as_slice()) && self.type_
            == other.type_ && same_bytes(self.timestamp.as_slice(), other.timestamp.as_slice())
            && same_bytes(self.message.as_slice(), other.message.as_slice());
        proof {
            if same {
                assert(self.seq =~= other.seq);
                assert(self.timestamp =~= other.timestamp);
                assert(self.message =~= other.message);
            }
        }
        same
    }
}

impl vstd::std_specs::cmp::PartialEqSpecImpl for Packet {
    open spec fn obeys_eq_spec() -> bool {
        true
    }

    open spec fn eq_spec(&self, other: &Self) -> bool {
        *self == *other
    }
}

impl Eq for Packet {

}

/// The payload of a new ping. The sequence number does not enter into it.
pub fn rand_message(_seq: usize) -> (message: [u8; MSG_BYTES])
    ensures
        message@ == fixed_message(),
{
    let name: [u8; NAME_LEN] = [
        72, 101, 110, 114, 105, 113, 117, 101, 67, 111, 117, 116, 105, 110, 104, 111, 76, 97, 121,
        98, 101, 114,
    ];
    let mut message: [u8; MSG_BYTES] = [0; MSG_BYTES];
    let mut i: usize = 0;
    while i < NAME_LEN
        invariant
            i <= NAME_LEN,
            forall|j: int| 0 <= j < i ==> message@[j] == name@[j],
            forall|j: int| i <= j < MSG_BYTES ==> message@[j] == 0,
        decreases NAME_LEN - i,
    {
        message[i] = name[i];
        i += 1;
    }
    message
}

impl Packet {
    /// The sequence number that the five `seq` bytes spell.
    pub fn sequence(&self) -> (value: u64)
        ensures
            value == self@.sequence,
    {
        assert(self.seq@.take(SEQ_BYTES as int) =~= self.seq@);
        seq_to_u64(self.seq.as_slice())
    }

    /// The number that the four `timestamp` bytes spell.
    pub fn sent_at(&self) -> (value: u32)
        ensures
            value == self@.timestamp,
    {
        let b0: u32 = self.timestamp[0] as u32;
        let b1: u32 = self.timestamp[1] as u32;
        let b2: u32 = self.timestamp[2] as u32;
        let b3: u32 = self.timestamp[3] as u32;
        proof {
            lemma_le_value_of_four(self.timestamp@);
        }
        b0 + 0x100 * b1 + 0x1_0000 * b2 + 0x100_0000 * b3
    }

    /// A ping for position `index` of a batch.
    pub fn new(index: usize) -> (packet: Packet)
        ensures
            packet@ == ping_view(index as nat),
    {
        let v0: u64 = index as u64;
        let v1: u64 = v0 / 0x100;
        let v2: u64 = v1 / 0x100;
        let v3: u64 = v2 / 0x100;
        let v4: u64 = v3 / 0x100;
        let seq: [u8; 5] = [
            (v0 % 0x100) as u8,
            (v1 % 0x100) as u8,
            (v2 % 0x100) as u8,
            (v3 % 0x100) as u8,
            (v4 % 0x100) as u8,
        ];
        let timestamp: [u8; 4] = [2; 4];
        let packet = Packet { seq, type_: Type::Ping, timestamp, message: rand_message(index) };
        proof {
            assert(seq@ =~= le_bytes(index as nat, SEQ_BYTES as nat)) by {
                reveal_with_fuel(le_bytes, 6);
            }
            lemma_le_value_of_bytes(index as nat, SEQ_BYTES as nat);
            lemma_radix_values();
            lemma_le_value_of_four(timestamp@);
        }
        packet
    }

    /// Serialises the packet: always `PKT_SIZE` bytes.
    pub fn encode(&self) -> (bytes: Vec<u8>)
        ensures
            bytes@ == wire(self@),
            bytes@.len() == PKT_SIZE,
    {
        let mut bytes: Vec<u8> = Vec::with_capacity(PKT_SIZE);
        append_bytes(&mut bytes, self.seq.as_slice());
        bytes.push(
            match self.type_ {
                Type::Ping => 1,
                Type::Pong => 0,
            },
        );
        append_bytes(&mut bytes, self.timestamp.as_slice());
        append_bytes(&mut bytes, self.message.as_slice());
        proof {
            lemma_le_bytes_of_value(self.seq@);
            lemma_le_bytes_of_value(self.timestamp@);
        }
        bytes
    }

    /// Reads a packet from a datagram.
    ///
    /// Fails with `InvalidSize` on fewer than ten bytes and with
    /// `InvalidType` on a kind byte above `1`. Otherwise succeeds: a payload
    /// shorter than 30 bytes is filled up with zeros.
    pub fn decode(bytes: &[u8]) -> (result: Result<Packet, DecodeError>)
        ensures
            match parse(bytes@) {
                Ok(view) => result matches Ok(packet) && packet@ == view,
                Err(error) => result == Err::<Packet, DecodeError>(error),
            },
    {
        if bytes.len() < HEADER_BYTES {
            return Err(DecodeError::InvalidSize);
        }
        let type_ = if bytes[SEQ_BYTES] == 0 {
            Type::Pong
        } else if bytes[SEQ_BYTES] == 1 {
            Type::Ping
        } else {
            return Err(DecodeError::InvalidType);
        };
        let seq: [u8; 5] = [bytes[0], bytes[1], bytes[2], bytes[3], bytes[4]];
        let timestamp: [u8; 4] = [bytes[6], bytes[7], bytes[8], bytes[9]];
        let mut message: [u8; MSG_BYTES] = [0; MSG_BYTES];
        let mut i: usize = 0;
        while i < MSG_BYTES && HEADER_BYTES + i < bytes.len()
            invariant
                i <= MSG_BYTES,
                HEADER_BYTES + i <= bytes@.len(),
                forall|j: int| 0 <= j < i ==> message@[j] == bytes@[HEADER_BYTES + j],
                forall|j: int| i <= j < MSG_BYTES ==> message@[j] == 0,
            decreases MSG_BYTES - i,
        {
            message[i] = bytes[HEADER_BYTES + i];
            i += 1;
        }
        let packet = Packet { seq, type_, timestamp, message };
        proof {
            assert(seq@ =~= bytes@.subrange(0, SEQ_BYTES as int));
            assert(timestamp@ =~= bytes@.subrange(
                SEQ_BYTES + REQTYPE_BYTES,
                HEADER_BYTES as int,
            ));
            assert(message@ =~= zero_padded(
                bytes@.skip(HEADER_BYTES as int),
                MSG_BYTES as nat,
            ));
        }
        Ok(packet)
    }
}

/// Serialisation, as a conversion.
impl From<Packet> for Vec<u8> {
    fn from(pkt: Packet) -> (bytes: Vec<u8>)
        ensures
            bytes@ == wire(pkt@),
            bytes@.len() == PKT_SIZE,
    {
        pkt.encode()
    }
}

/// A vector is more than the bytes it holds, so no one vector can be named
/// as the result: `from` itself states the bytes.
impl vstd::std_specs::convert::FromSpecImpl<Packet> for Vec<u8> {
    open spec fn obeys_from_spec() -> bool {
        false
    }

    open spec fn from_spec(pkt: Packet) -> Vec<u8> {
        arbitrary()
    }
}

/// Deserialisation, as a conversion that can fail.
impl TryFrom<Vec<u8>> for Packet {
    type Error = DecodeError;

    fn try_from(pkt_bytes: Vec<u8>) -> (result: Result<Packet, DecodeError>)
        ensures
            match parse(pkt_bytes@) {
                Ok(view) => result matches Ok(packet) && packet@ == view,
                Err(error) => result == Err::<Packet, DecodeError>(error),
            },
    {
        let result = Packet::decode(pkt_bytes.as_slice());
        proof {
            if let Ok(packet) = result {
                lemma_view_injective(packet, packet_of(packet@));
            }
        }
        result
    }
}

impl vstd::std_specs::convert::TryFromSpecImpl<Vec<u8>> for Packet {
    open spec fn obeys_try_from_spec() -> bool {
        true
    }

    open spec fn try_from_spec(pkt_bytes: Vec<u8>) -> Result<Packet, DecodeError> {
        match parse(pkt_bytes@) {
            Ok(view) => Ok(packet_of(view)),
            Err(error) => Err(error),
        }
    }
}

} // verus!
