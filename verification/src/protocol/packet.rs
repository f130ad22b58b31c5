//! Wire format for all network messages.
//!
//! ```text
//! [MAGIC: 4 bytes "HIVE"]
//! [VERSION: 1 byte]
//! [TYPE: 1 byte]
//! [PAYLOAD_LEN: 4 bytes BE]
//! [PAYLOAD: variable]
//! [CRC32: 4 bytes BE]
//! ```

use vstd::prelude::*;
use vstd::string::StringExecFns;
use crate::text::{decimal, hex_fixed, push_decimal, push_hex_fixed};
use vstd::slice::slice_subrange;
use crate::protocol::checksum::{crc32_ieee, law_crc32_detects_single_byte_change};
use crate::protocol::peer_id::{PeerId, PeerIdError, is_endpoint_key};
use crate::wire::{be32, be32_at, push_be32, push_all, read_be32, copy_range, lemma_be32_roundtrip, lemma_be32_bytes};

verus! {

/// Types of network packets.
#[derive(Debug, Clone, Copy, PartialEq, Eq, Structural)]
pub enum PacketType {
    /// Connection check.
    Ping,
    /// Reply to a ping.
    Pong,
    /// DHT node lookup.
    FindNode,
    /// DHT reply with a peer list.
    Nodes,
    /// Chat message.
    Message,
    /// Relayed traffic.
    Relay,
}

/// The type that a type byte stands for, if any.
pub open spec fn spec_packet_type_of(value: u8) -> Option<PacketType> {
    if value == 1 {
        Some(PacketType::Ping)
    } else if value == 2 {
        Some(PacketType::Pong)
    } else if value == 3 {
        Some(PacketType::FindNode)
    } else if value == 4 {
        Some(PacketType::Nodes)
    } else if value == 5 {
        Some(PacketType::Message)
    } else if value == 6 {
        Some(PacketType::Relay)
    } else {
        None
    }
}

impl PacketType {
    /// The byte that encodes this type on the wire.
    pub open spec fn spec_code(self) -> u8 {
        match self {
            PacketType::Ping => 1,
            PacketType::Pong => 2,
            PacketType::FindNode => 3,
            PacketType::Nodes => 4,
            PacketType::Message => 5,
            PacketType::Relay => 6,
        }
    }

    /// The byte that encodes this type on the wire.
    pub fn code(self) -> (r: u8)
        ensures
            r == self.spec_code(),
    {
        match self {
            PacketType::Ping => 1,
            PacketType::Pong => 2,
            PacketType::FindNode => 3,
            PacketType::Nodes => 4,
            PacketType::Message => 5,
            PacketType::Relay => 6,
        }
    }

    /// Converts a type byte to a packet type; `None` for an unknown byte.
    pub fn from_u8(value: u8) -> (r: Option<Self>)
        ensures
            r == spec_packet_type_of(value),
    {
        match value {
            1 => Some(PacketType::Ping),
            2 => Some(PacketType::Pong),
            3 => Some(PacketType::FindNode),
            4 => Some(PacketType::Nodes),
            5 => Some(PacketType::Message),
            6 => Some(PacketType::Relay),
            _ => None,
        }
    }
}

/// Decoding a type byte gives back the type that was encoded.
pub proof fn lemma_packet_type_code_roundtrip(t: PacketType)
    ensures
        spec_packet_type_of(t.spec_code()) == Some(t),
{
}

/// A type byte that decodes to a type is that type's code.
pub proof fn lemma_packet_type_of_code(v: u8)
    ensures
        spec_packet_type_of(v) matches Some(t) ==> t.spec_code() == v,
{
}

/// Computes the CRC-32 checksum with `crc32fast::hash`.
/// Trusted: the result is the CRC-32 (IEEE) of the input, as the crate
/// documents and its byte-wise fallback computes (register inverted in and
/// out, table of the reflected polynomial 0xEDB88320).
#[verifier::external_body]
fn crc32(data: &[u8]) -> (r: u32)
    ensures
        r == crc32_ieee(data@),
{
    crc32fast::hash(data)
}

/// Current protocol version.
pub const VERSION: u8 = 1;

/// Magic bytes "HIVE" that open every packet.
pub open spec fn spec_magic() -> Seq<u8> {
    seq![0x48u8, 0x49u8, 0x56u8, 0x45u8]
}

/// Length of the fixed part of a packet: magic, version, type, length and checksum.
pub const HEADER_AND_CRC_LEN: usize = 14;

/// Why bytes could not be decoded into a packet.
#[derive(Debug, Clone, Copy, PartialEq, Eq, Structural)]
pub enum PacketError {
    /// Fewer bytes than the fixed part of a packet.
    TooShort { len: usize },
    /// The first four bytes are not "HIVE".
    InvalidMagic,
    /// A protocol version other than the current one.
    UnsupportedVersion { version: u8 },
    /// A type byte that names no packet type.
    UnknownType { type_byte: u8 },
    /// The length field disagrees with the number of bytes.
    LengthMismatch { expected_len: u64, actual_len: usize },
    /// The checksum field disagrees with the checksum of the bytes.
    CrcMismatch { expected_crc: u32, actual_crc: u32 },
}

/// The text of a packet decoding error.
pub open spec fn packet_error_text(e: PacketError) -> Seq<char> {
    match e {
        PacketError::TooShort { len } => "Data too short: "@ + decimal(len as nat) + " bytes / Данные слишком короткие: "@ + decimal(len as nat) + " байт"@,
        PacketError::InvalidMagic => "Invalid magic / Неверный magic"@,
        PacketError::UnsupportedVersion { version } => "Unsupported version: "@ + decimal(version as nat) + " / Неподдерживаемая версия: "@ + decimal(version as nat),
        PacketError::UnknownType { type_byte } => "Unknown packet type: 0x"@ + hex_fixed(type_byte as nat, 2) + " / Неизвестный тип пакета: 0x"@ + hex_fixed(type_byte as nat, 2),
        PacketError::LengthMismatch { expected_len, actual_len } => "Length mismatch: expected "@ + decimal(expected_len as nat) + " bytes, got "@ + decimal(actual_len as nat) + " / Несоответствие длины: ожидалось "@ + decimal(expected_len as nat) + " байт, получено "@ + decimal(actual_len as nat),
        PacketError::CrcMismatch { expected_crc, actual_crc } => "CRC mismatch: expected 0x"@ + hex_fixed(expected_crc as nat, 8) + ", got 0x"@ + hex_fixed(actual_crc as nat, 8) + " / Несоответствие CRC: ожидалось 0x"@ + hex_fixed(expected_crc as nat, 8) + ", получено 0x"@ + hex_fixed(actual_crc as nat, 8),
    }
}

impl PacketError {
    /// The text of the error.
    pub fn message(&self) -> (r: String)
        ensures
            r@ == packet_error_text(*self),
    {
        let mut r = String::new();
        match *self {
            PacketError::TooShort { len } => {
                r.append("Data too short: ");
                push_decimal(&mut r, len as u64);
                r.append(" bytes / Данные слишком короткие: ");
                push_decimal(&mut r, len as u64);
                r.append(" байт");
            },
            PacketError::InvalidMagic => {
                r.append("Invalid magic / Неверный magic");
            },
            PacketError::UnsupportedVersion { version } => {
                r.append("Unsupported version: ");
                push_decimal(&mut r, version as u64);
                r.append(" / Неподдерживаемая версия: ");
                push_decimal(&mut r, version as u64);
            },
            PacketError::UnknownType { type_byte } => {
                r.append("Unknown packet type: 0x");
                push_hex_fixed(&mut r, type_byte as u64, 2);
                r.append(" / Неизвестный тип пакета: 0x");
                push_hex_fixed(&mut r, type_byte as u64, 2);
            },
            PacketError::LengthMismatch { expected_len, actual_len } => {
                r.append("Length mismatch: expected ");
                push_decimal(&mut r, expected_len as u64);
                r.append(" bytes, got ");
                push_decimal(&mut r, actual_len as u64);
                r.append(" / Несоответствие длины: ожидалось ");
                push_decimal(&mut r, expected_len as u64);
                r.append(" байт, получено ");
                push_decimal(&mut r, actual_len as u64);
            },
            PacketError::CrcMismatch { expected_crc, actual_crc } => {
                r.append("CRC mismatch: expected 0x");
                push_hex_fixed(&mut r, expected_crc as u64, 8);
                r.append(", got 0x");
                push_hex_fixed(&mut r, actual_crc as u64, 8);
                r.append(" / Несоответствие CRC: ожидалось 0x");
                push_hex_fixed(&mut r, expected_crc as u64, 8);
                r.append(", получено 0x");
                push_hex_fixed(&mut r, actual_crc as u64, 8);
            },
        }
        assert(r@ =~= packet_error_text(*self));
        r
    }
}

/// The mathematical content of a packet.
pub struct SpecPacket {
    pub version: u8,
    pub packet_type: PacketType,
    pub payload: Seq<u8>,
}

/// The checksummed part of an encoded packet: version, type, length and payload.
pub open spec fn spec_body(p: SpecPacket) -> Seq<u8> {
    seq![p.version, p.packet_type.spec_code()] + be32(p.payload.len() as u32) + p.payload
}

/// The bytes of an encoded packet.
pub open spec fn spec_serialize(p: SpecPacket) -> Seq<u8> {
    spec_magic() + spec_body(p) + be32(crc32_ieee(spec_body(p)))
}

/// The payload length that the length field of encoded bytes announces.
pub open spec fn spec_payload_len_field(data: Seq<u8>) -> u32 {
    be32_at(data, 6)
}

/// What decoding bytes gives: a packet, or the first check that fails.
pub open spec fn spec_deserialize(data: Seq<u8>) -> Result<SpecPacket, PacketError> {
    if data.len() < 14 {
        Err(PacketError::TooShort { len: data.len() as usize })
    } else if data.subrange(0, 4) != spec_magic() {
        Err(PacketError::InvalidMagic)
    } else if data[4] != VERSION {
        Err(PacketError::UnsupportedVersion { version: data[4] })
    } else if spec_packet_type_of(data[5]) is None {
        Err(PacketError::UnknownType { type_byte: data[5] })
    } else {
        let plen = spec_payload_len_field(data) as int;
        if data.len() != 14 + plen {
            Err(PacketError::LengthMismatch { expected_len: (14 + plen) as u64, actual_len: data.len() as usize })
        } else if be32_at(data, 10 + plen) != crc32_ieee(data.subrange(4, 10 + plen)) {
            Err(PacketError::CrcMismatch {
                expected_crc: be32_at(data, 10 + plen),
                actual_crc: crc32_ieee(data.subrange(4, 10 + plen)),
            })
        } else {
            Ok(SpecPacket {
                version: data[4],
                packet_type: spec_packet_type_of(data[5]).unwrap(),
                payload: data.subrange(10, 10 + plen),
            })
        }
    }
}

/// Decoding the bytes of an encoded packet gives the packet back, for every
/// packet of the current version whose payload length fits the 32-bit length field.
pub proof fn law_serialize_deserialize(p: SpecPacket)
    requires
        p.version == VERSION,
        p.payload.len() <= u32::MAX,
    ensures
        spec_deserialize(spec_serialize(p)) == Ok::<SpecPacket, PacketError>(p),
{
    let data = spec_serialize(p);
    let body = spec_body(p);
    let n = p.payload.len() as int;
    lemma_be32_roundtrip(n as u32);
    lemma_be32_roundtrip(crc32_ieee(body));
    lemma_packet_type_code_roundtrip(p.packet_type);
    assert(data.len() == 14 + n);
    assert(data.subrange(0, 4) =~= spec_magic());
    assert(data[4] == p.version);
    assert(data[5] == p.packet_type.spec_code());
    assert(data[6] == be32(n as u32)[0]);
    assert(data[7] == be32(n as u32)[1]);
    assert(data[8] == be32(n as u32)[2]);
    assert(data[9] == be32(n as u32)[3]);
    assert(spec_payload_len_field(data) == n);
    assert(data.subrange(4, 10 + n) =~= body);
    assert(data[10 + n] == be32(crc32_ieee(body))[0]);
    assert(data[11 + n] == be32(crc32_ieee(body))[1]);
    assert(data[12 + n] == be32(crc32_ieee(body))[2]);
    assert(data[13 + n] == be32(crc32_ieee(body))[3]);
    assert(data.subrange(10, 10 + n) =~= p.payload);
}

/// Bytes that decode to a packet are exactly the encoding of that packet:
/// the format admits one encoding per packet.
pub proof fn law_deserialize_serialize(data: Seq<u8>)
    requires
        spec_deserialize(data) is Ok,
    ensures
        spec_serialize(spec_deserialize(data)->Ok_0) == data,
{
    let p = spec_deserialize(data)->Ok_0;
    let plen = spec_payload_len_field(data) as int;
    lemma_packet_type_of_code(data[5]);
    lemma_be32_bytes(data[6], data[7], data[8], data[9]);
    lemma_be32_bytes(data[10 + plen], data[11 + plen], data[12 + plen], data[13 + plen]);
    assert(p.payload.len() == plen);
    assert(p.payload.len() as u32 == plen as u32);
    let body = spec_body(p);
    assert(body =~= data.subrange(4, 10 + plen));
    let ser = spec_serialize(p);
    assert(ser.len() == data.len());
    assert forall|i: int| 0 <= i < data.len() implies #[trigger] ser[i] == data[i] by {
        if i < 4 {
            assert(data[i] == data.subrange(0, 4)[i]);
        } else if i < 10 + plen {
            assert(ser[i] == body[i - 4]);
        } else {
            assert(ser[i] == be32(crc32_ieee(body))[i - 10 - plen]);
        }
    }
    assert(ser =~= data);
}

/// Four bytes that differ somewhere read as different big-endian numbers.
proof fn lemma_be32_at_differs(x: Seq<u8>, y: Seq<u8>, k: int, i: int)
    requires
        0 <= k,
        k + 4 <= x.len(),
        k + 4 <= y.len(),
        k <= i < k + 4,
        x[i] != y[i],
    ensures
        be32_at(x, k) != be32_at(y, k),
{
    lemma_be32_bytes(x[k], x[k + 1], x[k + 2], x[k + 3]);
    lemma_be32_bytes(y[k], y[k + 1], y[k + 2], y[k + 3]);
    if be32_at(x, k) == be32_at(y, k) {
        let sx = seq![x[k], x[k + 1], x[k + 2], x[k + 3]];
        let sy = seq![y[k], y[k + 1], y[k + 2], y[k + 3]];
        assert(sx == sy);
        assert(sx[i - k] == x[i]);
        assert(sy[i - k] == y[i]);
    }
}

/// Every change of a single byte of an encoded packet is caught: whichever
/// byte changed (magic, version, type, length, payload or checksum), decoding
/// the changed bytes fails.
pub proof fn law_single_byte_change_rejected(p: SpecPacket, changed: Seq<u8>, i: int)
    requires
        p.version == VERSION,
        p.payload.len() <= u32::MAX,
        changed.len() == spec_serialize(p).len(),
        0 <= i < changed.len(),
        changed[i] != spec_serialize(p)[i],
        forall|j: int| 0 <= j < changed.len() && j != i ==> changed[j] == spec_serialize(p)[j],
    ensures
        spec_deserialize(changed) is Err,
{
    let d = spec_serialize(p);
    let n = p.payload.len() as int;
    law_serialize_deserialize(p);
    assert(d.len() == 14 + n);
    assert(be32_at(d, 6) == n);
    assert(be32_at(d, 10 + n) == crc32_ieee(d.subrange(4, 10 + n)));
    if i < 4 {
        assert(d.subrange(0, 4) == spec_magic());
        assert(changed.subrange(0, 4)[i] != d.subrange(0, 4)[i]);
        assert(changed.subrange(0, 4) != spec_magic());
    } else if i == 4 {
        assert(changed[4] != VERSION);
    } else if 6 <= i < 10 {
        lemma_be32_at_differs(changed, d, 6, i);
        assert(changed.subrange(0, 4) =~= d.subrange(0, 4));
    } else {
        assert(changed.subrange(0, 4) =~= d.subrange(0, 4));
        assert(be32_at(changed, 6) == be32_at(d, 6));
        if i >= 10 + n {
            lemma_be32_at_differs(changed, d, 10 + n, i);
            assert(changed.subrange(4, 10 + n) =~= d.subrange(4, 10 + n));
        } else {
            let b1 = d.subrange(4, 10 + n);
            let b2 = changed.subrange(4, 10 + n);
            assert(b2[i - 4] != b1[i - 4]);
            assert forall|j: int| 0 <= j < b1.len() && j != i - 4 implies b1[j] == b2[j] by {
                assert(b1[j] == d[j + 4]);
                assert(b2[j] == changed[j + 4]);
            }
            law_crc32_detects_single_byte_change(b1, b2, i - 4);
            assert(be32_at(changed, 10 + n) == be32_at(d, 10 + n));
        }
    }
}

/// A network packet with typed payload and CRC32 integrity check.
#[derive(Debug, Clone, PartialEq, Eq)]
pub struct Packet {
    pub version: u8,
    pub packet_type: PacketType,
    pub payload: Vec<u8>,
}

impl View for Packet {
    type V = SpecPacket;

    open spec fn view(&self) -> SpecPacket {
        SpecPacket { version: self.version, packet_type: self.packet_type, payload: self.payload@ }
    }
}

impl Packet {
    /// Creates a Ping packet.
    pub fn ping() -> (r: Self)
        ensures
            r@ == (SpecPacket { version: VERSION, packet_type: PacketType::Ping, payload: seq![] }),
    {
        Packet { version: VERSION, packet_type: PacketType::Ping, payload: Vec::new() }
    }

    /// Creates a Pong packet.
    pub fn pong() -> (r: Self)
        ensures
            r@ == (SpecPacket { version: VERSION, packet_type: PacketType::Pong, payload: seq![] }),
    {
        Packet { version: VERSION, packet_type: PacketType::Pong, payload: Vec::new() }
    }

    /// Creates a FindNode packet for DHT lookups; the payload is the target id.
    pub fn find_node(target: &PeerId) -> (r: Self)
        ensures
            r@ == (SpecPacket { version: VERSION, packet_type: PacketType::FindNode, payload: target@ }),
    {
        let mut payload: Vec<u8> = Vec::new();
        push_all(&mut payload, target.as_bytes());
        assert(payload@ =~= target@);
        Packet { version: VERSION, packet_type: PacketType::FindNode, payload }
    }

    /// Creates a Message packet: `[from: 32 bytes] [to: 32 bytes] [content]`.
    pub fn message(from: &PeerId, to: &PeerId, content: &[u8]) -> (r: Self)
        ensures
            r@ == (SpecPacket {
                version: VERSION,
                packet_type: PacketType::Message,
                payload: from@ + to@ + content@,
            }),
    {
        let mut payload: Vec<u8> = Vec::new();
        push_all(&mut payload, from.as_bytes());
        push_all(&mut payload, to.as_bytes());
        push_all(&mut payload, content);
        assert(payload@ =~= from@ + to@ + content@);
        Packet { version: VERSION, packet_type: PacketType::Message, payload }
    }

    /// Serializes the packet to bytes for network transmission.
    pub fn serialize(&self) -> (r: Vec<u8>)
        ensures
            r@ == spec_serialize(self@),
    {
        let mut buf: Vec<u8> = Vec::new();
        buf.push(0x48);
        buf.push(0x49);
        buf.push(0x56);
        buf.push(0x45);
        buf.push(self.version);
        buf.push(self.packet_type.code());
        push_be32(&mut buf, self.payload.len() as u32);
        push_all(&mut buf, self.payload.as_slice());
        assert(buf@ =~= spec_magic() + spec_body(self@));
        let body = slice_subrange(buf.as_slice(), 4, buf.len());
        assert(body@ =~= spec_body(self@));
        let crc = crc32(body);
        push_be32(&mut buf, crc);
        buf
    }

    /// Deserializes bytes into a packet, checking magic, version, type, length and CRC.
    pub fn deserialize(data: &[u8]) -> (r: Result<Self, PacketError>)
        ensures
            spec_deserialize(data@) == (match r {
                Ok(p) => Ok(p@),
                Err(e) => Err(e),
            }),
    {
        let n = data.len();
        if n < HEADER_AND_CRC_LEN {
            return Err(PacketError::TooShort { len: n });
        }
        if !(data[0] == 0x48 && data[1] == 0x49 && data[2] == 0x56 && data[3] == 0x45) {
            proof {
                if data@.subrange(0, 4) == spec_magic() {
                    assert(data@[0] == data@.subrange(0, 4)[0]);
                    assert(data@[1] == data@.subrange(0, 4)[1]);
                    assert(data@[2] == data@.subrange(0, 4)[2]);
                    assert(data@[3] == data@.subrange(0, 4)[3]);
                }
            }
            return Err(PacketError::InvalidMagic);
        }
        assert(data@.subrange(0, 4) =~= spec_magic());
        let version = data[4];
        if version != VERSION {
            return Err(PacketError::UnsupportedVersion { version });
        }
        let type_byte = data[5];
        let packet_type = match PacketType::from_u8(type_byte) {
            Some(t) => t,
            None => {
                return Err(PacketError::UnknownType { type_byte });
            },
        };
        let payload_len = read_be32(data, 6);
        let expected: u64 = 14 + payload_len as u64;
        if (n as u64) != expected {
            return Err(PacketError::LengthMismatch { expected_len: expected, actual_len: n });
        }
        let plen = payload_len as usize;
        let payload = copy_range(data, 10, 10 + plen);
        let crc_expected = read_be32(data, 10 + plen);
        let crc_actual = crc32(slice_subrange(data, 4, 10 + plen));
        if crc_expected != crc_actual {
            return Err(PacketError::CrcMismatch { expected_crc: crc_expected, actual_crc: crc_actual });
        }
        Ok(Packet { version, packet_type, payload })
    }

    /// The 32-byte sender id of a Message packet, which must be a valid key.
    pub fn message_sender(&self) -> (r: Option<PeerId>)
        requires
            self.packet_type == PacketType::Message && self.payload@.len() >= 32 ==> is_endpoint_key(
                self.payload@.subrange(0, 32),
            ),
        ensures
            r is Some <==> (self.packet_type == PacketType::Message && self.payload@.len() >= 32),
            r matches Some(p) ==> p@ == self.payload@.subrange(0, 32),
    {
        if self.packet_type != PacketType::Message || self.payload.len() < 32 {
            return None;
        }
        Some(PeerId::from_public_key(self.payload.as_slice()))
    }

    /// The 32-byte recipient id of a Message packet, which must be a valid key.
    pub fn message_recipient(&self) -> (r: Option<PeerId>)
        requires
            self.packet_type == PacketType::Message && self.payload@.len() >= 64 ==> is_endpoint_key(
                self.payload@.subrange(32, 64),
            ),
        ensures
            r is Some <==> (self.packet_type == PacketType::Message && self.payload@.len() >= 64),
            r matches Some(p) ==> p@ == self.payload@.subrange(32, 64),
    {
        if self.packet_type != PacketType::Message || self.payload.len() < 64 {
            return None;
        }
        let rest = slice_subrange(self.payload.as_slice(), 32, 64);
        assert(rest@.subrange(0, 32) =~= self.payload@.subrange(32, 64));
        Some(PeerId::from_public_key(rest))
    }

    /// The content of a Message packet: the payload after both ids.
    pub fn message_content(&self) -> (r: Option<&[u8]>)
        ensures
            r is Some <==> (self.packet_type == PacketType::Message && self.payload@.len() >= 64),
            r matches Some(c) ==> c@ == self.payload@.subrange(64, self.payload@.len() as int),
    {
        if self.packet_type != PacketType::Message || self.payload.len() < 64 {
            return None;
        }
        Some(slice_subrange(self.payload.as_slice(), 64, self.payload.len()))
    }

    /// Sender and recipient of a Message packet, checking that both ids are valid keys.
    /// `None` where the packet is no Message or its payload is shorter than two ids.
    pub fn message_endpoints(&self) -> (r: Option<Result<(PeerId, PeerId), PeerIdError>>)
        ensures
            r is Some <==> (self.packet_type == PacketType::Message && self.payload@.len() >= 64),
            r matches Some(Ok((s, t))) ==> s@ == self.payload@.subrange(0, 32) && t@
                == self.payload@.subrange(32, 64),
            r matches Some(res) ==> (res is Ok <==> (is_endpoint_key(self.payload@.subrange(0, 32))
                && is_endpoint_key(self.payload@.subrange(32, 64)))),
            r matches Some(Err(e)) ==> e == PeerIdError::InvalidBytes,
    {
        if self.packet_type != PacketType::Message || self.payload.len() < 64 {
            return None;
        }
        let mut sender_bytes = [0u8; 32];
        let mut recipient_bytes = [0u8; 32];
        let mut i: usize = 0;
        while i < 32
            invariant
                i <= 32,
                self.payload@.len() >= 64,
                forall|j: int| 0 <= j < i ==> sender_bytes@[j] == self.payload@[j],
                forall|j: int| 0 <= j < i ==> recipient_bytes@[j] == self.payload@[32 + j],
            decreases 32 - i,
        {
            sender_bytes[i] = self.payload[i];
            recipient_bytes[i] = self.payload[32 + i];
            i = i + 1;
        }
        assert(sender_bytes@ =~= self.payload@.subrange(0, 32));
        assert(recipient_bytes@ =~= self.payload@.subrange(32, 64));
        match (PeerId::from_bytes(sender_bytes), PeerId::from_bytes(recipient_bytes)) {
            (Ok(_), Ok(_)) => {
                let sender = self.message_sender();
                let recipient = self.message_recipient();
                Some(Ok((sender.unwrap(), recipient.unwrap())))
            },
            _ => Some(Err(PeerIdError::InvalidBytes)),
        }
    }
}

} // verus!
