use undertow_protocol::network::addr::{IpAddr, SocketAddr};
use undertow_protocol::network::peer::{Peer, PeerDecodeError};
use undertow_protocol::protocol::peer_id::PeerId;

fn key(y: u8) -> PeerId {
    let mut b = [0u8; 32];
    b[0] = y;
    PeerId::from_bytes(b).unwrap()
}

fn v6(segs: [u16; 8]) -> u128 {
    segs.iter().fold(0u128, |acc, s| (acc << 16) | (*s as u128))
}

#[test]
fn new_peer_defaults() {
    let addr = SocketAddr::v4(192, 168, 1, 10, 9000);
    let p = Peer::new(key(3), addr);
    assert_eq!(p.id(), &key(3));
    assert_eq!(p.addrs(), &[addr]);
    assert_eq!(p.last_seen(), 0);
    assert!(!p.is_relay());
    assert_eq!(p.reputation(), 0);
}

#[test]
fn add_addr_skips_duplicates() {
    let a = SocketAddr::v4(10, 0, 0, 1, 1);
    let b = SocketAddr::v4(10, 0, 0, 2, 1);
    let mut p = Peer::new(key(3), a);
    p.add_addr(b);
    p.add_addr(a);
    p.add_addr(b);
    assert_eq!(p.addrs(), &[a, b]);
}

#[test]
fn stale_uses_saturating_elapsed_time() {
    let mut p = Peer::new(key(3), SocketAddr::v4(1, 2, 3, 4, 5));
    p.update_seen(100);
    assert_eq!(p.last_seen(), 100);
    assert!(!p.is_stale(150, 50));
    assert!(p.is_stale(151, 50));
    assert!(!p.is_stale(10, 0));
}

#[test]
fn relay_flag() {
    let mut p = Peer::new(key(3), SocketAddr::v4(1, 2, 3, 4, 5));
    p.set_relay(true);
    assert!(p.is_relay());
    p.set_relay(false);
    assert!(!p.is_relay());
}

#[test]
fn to_bytes_layout() {
    let mut p = Peer::new(key(3), SocketAddr::v4(192, 168, 0, 1, 0x1234));
    p.add_addr(SocketAddr::v6(1, 80));
    p.update_seen(0x0102030405060708);
    p.set_relay(true);
    let bytes = p.to_bytes();
    let mut expected = key(3).as_bytes().to_vec();
    expected.push(2);
    expected.extend_from_slice(&[4, 192, 168, 0, 1, 0x12, 0x34]);
    expected.push(6);
    expected.extend_from_slice(&[0; 15]);
    expected.extend_from_slice(&[1, 0, 80]);
    expected.extend_from_slice(&[1, 2, 3, 4, 5, 6, 7, 8]);
    expected.push(1);
    expected.extend_from_slice(&[0, 0, 0, 0]);
    assert_eq!(bytes, expected);
}

#[test]
fn bytes_roundtrip() {
    let mut p = Peer::new(key(9), SocketAddr::v4(8, 8, 4, 4, 53));
    p.add_addr(SocketAddr::v6(v6([0x2001, 0xdb8, 0, 0, 0, 0, 0, 1]), 443));
    p.update_seen(77);
    let bytes = p.to_bytes();
    let q = Peer::from_bytes(&bytes).ok().unwrap();
    assert_eq!(q.id(), p.id());
    assert_eq!(q.addrs(), p.addrs());
    assert_eq!(q.last_seen(), 77);
    assert!(!q.is_relay());
    assert_eq!(q.reputation(), 0);
    let r = Peer::decode(&bytes).ok().unwrap();
    assert_eq!(r.to_bytes(), bytes);
}

#[test]
fn decode_ignores_trailing_bytes() {
    let p = Peer::new(key(4), SocketAddr::v4(1, 1, 1, 1, 1));
    let mut bytes = p.to_bytes();
    bytes.extend_from_slice(&[9, 9, 9]);
    let q = Peer::decode(&bytes).ok().unwrap();
    assert_eq!(q.to_bytes(), p.to_bytes());
}

#[test]
fn decode_errors() {
    let p = Peer::new(key(4), SocketAddr::v4(1, 1, 1, 1, 1));
    let full = p.to_bytes();
    assert_eq!(Peer::decode(&full[..31]).err(), Some(PeerDecodeError::TooShortForId));
    assert_eq!(Peer::decode(&full[..32]).err(), Some(PeerDecodeError::TooShortForAddrCount));
    assert_eq!(Peer::decode(&full[..33]).err(), Some(PeerDecodeError::TooShortForAddrType));
    assert_eq!(Peer::decode(&full[..39]).err(), Some(PeerDecodeError::TooShortForIpv4));
    assert_eq!(Peer::decode(&full[..41]).err(), Some(PeerDecodeError::TooShortForTimestamp));
    assert_eq!(Peer::decode(&full[..48]).err(), Some(PeerDecodeError::TooShortForRelayFlag));
    assert_eq!(Peer::decode(&full[..52]).err(), Some(PeerDecodeError::TooShortForReputation));
    assert!(Peer::decode(&full[..53]).is_ok());

    let mut bad_type = full.clone();
    bad_type[33] = 5;
    assert_eq!(Peer::decode(&bad_type).err(), Some(PeerDecodeError::UnknownIpType { ip_type: 5 }));

    let mut six = key(4).as_bytes().to_vec();
    six.extend_from_slice(&[1, 6, 0, 0]);
    assert_eq!(Peer::decode(&six).err(), Some(PeerDecodeError::TooShortForIpv6));
    assert_eq!(Peer::from_bytes(&six).err(), Some(PeerDecodeError::TooShortForIpv6));

    let mut invalid = full.clone();
    invalid[0] = 2;
    assert_eq!(Peer::decode(&invalid).err(), Some(PeerDecodeError::InvalidId));
}

#[test]
fn decode_zero_addresses() {
    let mut bytes = key(3).as_bytes().to_vec();
    bytes.push(0);
    bytes.extend_from_slice(&[0, 0, 0, 0, 0, 0, 0, 5, 0, 0, 0, 0, 7]);
    let p = Peer::decode(&bytes).ok().unwrap();
    assert!(p.addrs().is_empty());
    assert_eq!(p.last_seen(), 5);
    assert_eq!(p.reputation(), 7);
    assert_eq!(p.endpoint(), "unknown");
}

#[test]
fn endpoint_is_first_address() {
    let mut p = Peer::new(key(3), SocketAddr::v4(192, 168, 1, 10, 8080));
    p.add_addr(SocketAddr::v4(10, 0, 0, 1, 1));
    assert_eq!(p.endpoint(), "192.168.1.10:8080");
    let q = Peer::new(key(3), SocketAddr::v6(1, 9000));
    assert_eq!(q.endpoint(), "[::1]:9000");
}

#[test]
fn ipv4_text() {
    assert_eq!(SocketAddr::v4(0, 0, 0, 0, 0).to_string(), "0.0.0.0:0");
    assert_eq!(SocketAddr::v4(255, 255, 255, 255, 65535).to_string(), "255.255.255.255:65535");
    assert_eq!(SocketAddr::v4(127, 0, 0, 1, 80).to_string(), "127.0.0.1:80");
    assert_eq!(IpAddr::V4(0x0a000102).to_string(), "10.0.1.2");
}

#[test]
fn ipv6_text_canonical_form() {
    let cases: Vec<([u16; 8], &str)> = vec![
        ([0, 0, 0, 0, 0, 0, 0, 0], "::"),
        ([0, 0, 0, 0, 0, 0, 0, 1], "::1"),
        ([0x2001, 0xdb8, 0, 0, 0, 0, 0, 1], "2001:db8::1"),
        ([0x2001, 0xdb8, 0, 1, 1, 1, 1, 1], "2001:db8:0:1:1:1:1:1"),
        ([0x2001, 0, 0, 1, 0, 0, 0, 1], "2001:0:0:1::1"),
        ([0x2001, 0xdb8, 0, 0, 1, 0, 0, 1], "2001:db8::1:0:0:1"),
        ([1, 2, 3, 4, 5, 6, 7, 8], "1:2:3:4:5:6:7:8"),
        ([0xfe80, 0, 0, 0, 0xabcd, 0, 0, 0], "fe80::abcd:0:0:0"),
        ([1, 0, 0, 0, 0, 0, 0, 0], "1::"),
        ([0, 0, 0, 0, 0, 0xffff, 0xc000, 0x0280], "::ffff:192.0.2.128"),
        ([0, 0, 0, 0, 0, 0, 0xc00a, 0x2ff], "::c00a:2ff"),
        ([0xffff, 0xffff, 0xffff, 0xffff, 0xffff, 0xffff, 0xffff, 0xffff],
            "ffff:ffff:ffff:ffff:ffff:ffff:ffff:ffff"),
    ];
    for (segs, text) in cases {
        assert_eq!(IpAddr::V6(v6(segs)).to_string(), text);
    }
    assert_eq!(SocketAddr::v6(v6([0x2001, 0xdb8, 0, 0, 0, 0, 0, 1]), 443).to_string(), "[2001:db8::1]:443");
}

#[test]
fn peer_decode_error_messages() {
    assert_eq!(PeerDecodeError::TooShortForId.message(), "Data too short for ID / Данные слишком короткие для ID");
    assert_eq!(
        PeerDecodeError::UnknownIpType { ip_type: 5 }.message(),
        format!("Unknown IP type: {} / Неизвестный тип IP: {}", 5, 5)
    );
    assert_eq!(
        PeerDecodeError::TooShortForReputation.message(),
        "Data too short for reputation / Данные слишком короткие для репутации"
    );
    assert_eq!(PeerDecodeError::InvalidId.message(), "Invalid EndpointId bytes / Некорректные байты EndpointId");
}
