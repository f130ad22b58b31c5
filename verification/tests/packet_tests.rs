use undertow_protocol::protocol::packet::{Packet, PacketError, PacketType, VERSION};
use undertow_protocol::protocol::peer_id::{PeerId, PeerIdError};

fn key(y: u8) -> PeerId {
    let mut b = [0u8; 32];
    b[0] = y;
    PeerId::from_bytes(b).unwrap()
}

#[test]
fn packet_type_codes_roundtrip() {
    let all = [
        PacketType::Ping,
        PacketType::Pong,
        PacketType::FindNode,
        PacketType::Nodes,
        PacketType::Message,
        PacketType::Relay,
    ];
    for (i, t) in all.iter().enumerate() {
        assert_eq!(t.code(), (i + 1) as u8);
        assert_eq!(PacketType::from_u8(t.code()), Some(*t));
    }
    assert_eq!(PacketType::from_u8(0), None);
    assert_eq!(PacketType::from_u8(7), None);
    assert_eq!(PacketType::from_u8(255), None);
}

#[test]
fn ping_serializes_to_known_bytes() {
    let bytes = Packet::ping().serialize();
    assert_eq!(
        bytes,
        vec![0x48, 0x49, 0x56, 0x45, 1, 1, 0, 0, 0, 0, 0x47, 0xfe, 0x5b, 0xb6]
    );
}

#[test]
fn payload_packet_serializes_with_crc() {
    let p = Packet { version: VERSION, packet_type: PacketType::Message, payload: b"abc".to_vec() };
    let bytes = p.serialize();
    assert_eq!(
        bytes,
        vec![0x48, 0x49, 0x56, 0x45, 1, 5, 0, 0, 0, 3, b'a', b'b', b'c', 0x61, 0x42, 0x39, 0xb7]
    );
    assert_eq!(Packet::deserialize(&bytes), Ok(p));
}

#[test]
fn serialize_deserialize_roundtrip() {
    let packets = vec![
        Packet::ping(),
        Packet::pong(),
        Packet::find_node(&key(3)),
        Packet::message(&key(3), &key(4), b"hello"),
        Packet { version: VERSION, packet_type: PacketType::Relay, payload: vec![7; 300] },
    ];
    for p in packets {
        let bytes = p.serialize();
        assert_eq!(bytes.len(), 14 + p.payload.len());
        assert_eq!(Packet::deserialize(&bytes), Ok(p));
    }
}

#[test]
fn deserialize_too_short() {
    assert_eq!(Packet::deserialize(&[]), Err(PacketError::TooShort { len: 0 }));
    assert_eq!(Packet::deserialize(&[0x48; 13]), Err(PacketError::TooShort { len: 13 }));
}

#[test]
fn deserialize_invalid_magic() {
    let mut bytes = Packet::ping().serialize();
    bytes[0] = b'X';
    assert_eq!(Packet::deserialize(&bytes), Err(PacketError::InvalidMagic));
}

#[test]
fn deserialize_unsupported_version() {
    let mut bytes = Packet::ping().serialize();
    bytes[4] = 2;
    assert_eq!(Packet::deserialize(&bytes), Err(PacketError::UnsupportedVersion { version: 2 }));
}

#[test]
fn deserialize_unknown_type() {
    let mut bytes = Packet::ping().serialize();
    bytes[5] = 9;
    assert_eq!(Packet::deserialize(&bytes), Err(PacketError::UnknownType { type_byte: 9 }));
}

#[test]
fn deserialize_length_mismatch() {
    let mut bytes = Packet::ping().serialize();
    bytes.push(0);
    assert_eq!(
        Packet::deserialize(&bytes),
        Err(PacketError::LengthMismatch { expected_len: 14, actual_len: 15 })
    );
    let mut bytes = Packet::ping().serialize();
    bytes[9] = 5;
    assert_eq!(
        Packet::deserialize(&bytes),
        Err(PacketError::LengthMismatch { expected_len: 19, actual_len: 14 })
    );
}

#[test]
fn deserialize_crc_mismatch() {
    let mut bytes = Packet::ping().serialize();
    bytes[13] ^= 1;
    assert_eq!(
        Packet::deserialize(&bytes),
        Err(PacketError::CrcMismatch { expected_crc: 0x47fe5bb7, actual_crc: 0x47fe5bb6 })
    );
}

#[test]
fn find_node_payload_is_target() {
    let target = key(5);
    let p = Packet::find_node(&target);
    assert_eq!(p.version, VERSION);
    assert_eq!(p.packet_type, PacketType::FindNode);
    assert_eq!(p.payload, target.as_bytes().to_vec());
}

#[test]
fn message_parts() {
    let from = key(3);
    let to = key(9);
    let p = Packet::message(&from, &to, b"hi there");
    assert_eq!(p.payload.len(), 64 + 8);
    assert_eq!(p.message_sender(), Some(from));
    assert_eq!(p.message_recipient(), Some(to));
    assert_eq!(p.message_content(), Some(&b"hi there"[..]));
    assert_eq!(p.message_endpoints(), Some(Ok((from, to))));
}

#[test]
fn message_parts_of_other_packets() {
    let p = Packet::ping();
    assert_eq!(p.message_sender(), None);
    assert_eq!(p.message_recipient(), None);
    assert_eq!(p.message_content(), None);
    assert_eq!(p.message_endpoints(), None);
    let short = Packet { version: VERSION, packet_type: PacketType::Message, payload: vec![3; 40] };
    assert_eq!(short.message_content(), None);
    assert_eq!(short.message_endpoints(), None);
}

#[test]
fn message_endpoints_invalid_key() {
    let mut payload = vec![0u8; 64];
    payload[0] = 3;
    payload[32] = 2;
    let p = Packet { version: VERSION, packet_type: PacketType::Message, payload };
    assert_eq!(p.message_endpoints(), Some(Err(PeerIdError::InvalidBytes)));
    assert_eq!(p.message_content(), Some(&[][..]));
}

#[test]
fn decoded_bytes_serialize_back() {
    let inputs = vec![
        vec![0x48, 0x49, 0x56, 0x45, 1, 1, 0, 0, 0, 0, 0x47, 0xfe, 0x5b, 0xb6],
        vec![0x48, 0x49, 0x56, 0x45, 1, 5, 0, 0, 0, 3, b'a', b'b', b'c', 0x61, 0x42, 0x39, 0xb7],
    ];
    for bytes in inputs {
        let p = Packet::deserialize(&bytes).unwrap();
        assert_eq!(p.serialize(), bytes);
    }
}

#[test]
fn every_single_byte_change_is_rejected() {
    let packets = vec![Packet::ping(), Packet::message(&key(3), &key(4), b"payload")];
    for p in packets {
        let bytes = p.serialize();
        for i in 0..bytes.len() {
            for delta in [1u8, 0x80, 0xff] {
                let mut changed = bytes.clone();
                changed[i] ^= delta;
                assert!(Packet::deserialize(&changed).is_err(), "byte {} xor {}", i, delta);
            }
        }
    }
}

#[test]
fn packet_error_messages() {
    assert_eq!(PacketError::TooShort { len: 3 }.message(), format!("Data too short: {} bytes / Данные слишком короткие: {} байт", 3, 3));
    assert_eq!(PacketError::InvalidMagic.message(), "Invalid magic / Неверный magic");
    assert_eq!(
        PacketError::UnsupportedVersion { version: 2 }.message(),
        format!("Unsupported version: {} / Неподдерживаемая версия: {}", 2, 2)
    );
    assert_eq!(
        PacketError::UnknownType { type_byte: 9 }.message(),
        format!("Unknown packet type: 0x{:02x} / Неизвестный тип пакета: 0x{:02x}", 9, 9)
    );
    assert_eq!(
        PacketError::LengthMismatch { expected_len: 19, actual_len: 14 }.message(),
        format!(
            "Length mismatch: expected {} bytes, got {} / Несоответствие длины: ожидалось {} байт, получено {}",
            19, 14, 19, 14
        )
    );
    let (e, a) = (0x47fe5bb7u32, 0x0000abcdu32);
    assert_eq!(
        PacketError::CrcMismatch { expected_crc: e, actual_crc: a }.message(),
        format!(
            "CRC mismatch: expected 0x{:08x}, got 0x{:08x} / Несоответствие CRC: ожидалось 0x{:08x}, получено 0x{:08x}",
            e, a, e, a
        )
    );
}
