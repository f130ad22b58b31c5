use undertow_protocol::network::addr::{IpAddr, SocketAddr};
use undertow_protocol::network::local::{LocalDiscovery, LOOPBACK_V4};
use undertow_protocol::network::nat_detection::{NatDetector, NatType};
use undertow_protocol::network::node::{connection_strategy, ConnectStrategy};
use undertow_protocol::network::stun::{
    next_stun_step, stun_servers, StunClient, StunError, StunStep, WESTERN_STUN_SERVERS,
};

const COOKIE: [u8; 4] = [0x21, 0x12, 0xA4, 0x42];

/// A Binding Response carrying the given attributes.
fn response(attrs: &[u8]) -> Vec<u8> {
    let mut r = vec![0x01, 0x01, (attrs.len() >> 8) as u8, attrs.len() as u8];
    r.extend_from_slice(&COOKIE);
    r.extend_from_slice(&[7; 12]);
    r.extend_from_slice(attrs);
    r
}

/// A XOR-MAPPED-ADDRESS attribute for an IPv4 address.
fn xor_mapped(ip: [u8; 4], port: u16) -> Vec<u8> {
    let xport = port ^ 0x2112;
    vec![
        0x00, 0x20, 0x00, 0x08, 0x00, 0x01,
        (xport >> 8) as u8, xport as u8,
        ip[0] ^ COOKIE[0], ip[1] ^ COOKIE[1], ip[2] ^ COOKIE[2], ip[3] ^ COOKIE[3],
    ]
}

#[test]
fn classify_nat_by_port() {
    let ext = SocketAddr::v4(203, 0, 113, 5, 4000);
    assert_eq!(NatDetector::classify_nat(&ext, 4000), NatType::Cone);
    assert_eq!(NatDetector::classify_nat(&ext, 4001), NatType::Symmetric);
}

#[test]
fn nat_info_from_discovery() {
    let locals = LocalDiscovery::get_local_addrs(4000, Some(0xc0a8000a));
    let ext = SocketAddr::v4(203, 0, 113, 5, 4000);
    let info = NatDetector::from_discovery(4000, locals.clone(), Some(ext));
    assert_eq!(info.nat_type, NatType::Cone);
    assert_eq!(info.external_addr, Some(ext));
    assert_eq!(info.local_addrs, locals);
    let none = NatDetector::from_discovery(4000, Vec::new(), None);
    assert_eq!(none.nat_type, NatType::Unknown);
    assert_eq!(none.external_addr, None);
    assert!(none.local_addrs.is_empty());
}

#[test]
fn strategies() {
    assert_eq!(connection_strategy(NatType::Direct), ConnectStrategy::Direct);
    assert_eq!(connection_strategy(NatType::Cone), ConnectStrategy::HolePunch);
    assert_eq!(connection_strategy(NatType::Restricted), ConnectStrategy::HolePunch);
    assert_eq!(connection_strategy(NatType::Symmetric), ConnectStrategy::Beacon);
    assert_eq!(connection_strategy(NatType::Unknown), ConnectStrategy::Beacon);
}

#[test]
fn local_addrs() {
    assert_eq!(
        LocalDiscovery::get_local_addrs(80, None),
        vec![SocketAddr { ip: IpAddr::V4(LOOPBACK_V4), port: 80 }]
    );
    assert_eq!(
        LocalDiscovery::get_local_addrs(80, Some(0xc0a80102)),
        vec![SocketAddr::v4(127, 0, 0, 1, 80), SocketAddr::v4(192, 168, 1, 2, 80)]
    );
    assert_eq!(LocalDiscovery::lan_ip_of(IpAddr::V4(0xc0a80102)), Some(0xc0a80102));
    assert_eq!(LocalDiscovery::lan_ip_of(IpAddr::V4(0x7f000001)), None);
    assert_eq!(LocalDiscovery::lan_ip_of(IpAddr::V6(5)), None);
}

#[test]
fn is_local_ranges() {
    assert!(LocalDiscovery::is_local(&SocketAddr::v4(10, 1, 2, 3, 1)));
    assert!(LocalDiscovery::is_local(&SocketAddr::v4(172, 16, 0, 1, 1)));
    assert!(LocalDiscovery::is_local(&SocketAddr::v4(172, 31, 255, 255, 1)));
    assert!(!LocalDiscovery::is_local(&SocketAddr::v4(172, 32, 0, 1, 1)));
    assert!(!LocalDiscovery::is_local(&SocketAddr::v4(172, 15, 0, 1, 1)));
    assert!(LocalDiscovery::is_local(&SocketAddr::v4(192, 168, 5, 5, 1)));
    assert!(!LocalDiscovery::is_local(&SocketAddr::v4(192, 169, 5, 5, 1)));
    assert!(LocalDiscovery::is_local(&SocketAddr::v4(127, 0, 0, 1, 1)));
    assert!(!LocalDiscovery::is_local(&SocketAddr::v4(8, 8, 8, 8, 1)));
    assert!(LocalDiscovery::is_local(&SocketAddr::v6(1, 1)));
    assert!(!LocalDiscovery::is_local(&SocketAddr::v6(2, 1)));
}

#[test]
fn binding_request_layout() {
    let tid = [9u8, 8, 7, 6, 5, 4, 3, 2, 1, 0, 10, 11];
    let r = StunClient::build_binding_request_with_id(tid);
    let mut expected = vec![0x00, 0x01, 0x00, 0x00, 0x21, 0x12, 0xA4, 0x42];
    expected.extend_from_slice(&tid);
    assert_eq!(r, expected);
    let random = StunClient::build_binding_request();
    assert_eq!(random.len(), 20);
    assert_eq!(&random[..8], &expected[..8]);
}

#[test]
fn parse_response_finds_xor_mapped_address() {
    let r = response(&xor_mapped([203, 0, 113, 7], 54321));
    assert_eq!(StunClient::parse_response(&r), Ok(SocketAddr::v4(203, 0, 113, 7, 54321)));
}

#[test]
fn parse_response_skips_other_attributes() {
    let mut attrs = vec![0x80, 0x22, 0x00, 0x05, b'h', b'e', b'l', b'l', b'o', 0, 0, 0];
    attrs.extend_from_slice(&xor_mapped([1, 2, 3, 4], 5));
    let r = response(&attrs);
    assert_eq!(StunClient::parse_response(&r), Ok(SocketAddr::v4(1, 2, 3, 4, 5)));
}

#[test]
fn parse_response_errors() {
    assert_eq!(StunClient::parse_response(&[0; 19]), Err(StunError::ResponseTooShort));
    let mut bad_cookie = response(&xor_mapped([1, 2, 3, 4], 5));
    bad_cookie[5] = 0;
    assert_eq!(StunClient::parse_response(&bad_cookie), Err(StunError::InvalidMagicCookie));
    let mut bad_type = response(&xor_mapped([1, 2, 3, 4], 5));
    bad_type[1] = 0x11;
    assert_eq!(
        StunClient::parse_response(&bad_type),
        Err(StunError::UnexpectedResponseType { msg_type: 0x0111 })
    );
    let mut truncated = response(&xor_mapped([1, 2, 3, 4], 5));
    truncated.pop();
    assert_eq!(StunClient::parse_response(&truncated), Err(StunError::TruncatedResponse));
    let other = response(&[0x80, 0x22, 0x00, 0x00]);
    assert_eq!(StunClient::parse_response(&other), Err(StunError::XorMappedAddressNotFound));
    assert_eq!(StunClient::parse_response(&response(&[])), Err(StunError::XorMappedAddressNotFound));
}

#[test]
fn parse_xor_mapped_errors() {
    assert_eq!(StunClient::parse_xor_mapped(&[0, 1, 0], &COOKIE), Err(StunError::XorMappedAddressTooShort));
    assert_eq!(StunClient::parse_xor_mapped(&[0, 1, 0, 0, 1], &COOKIE), Err(StunError::Ipv4TooShort));
    assert_eq!(StunClient::parse_xor_mapped(&[0, 2, 0, 0], &COOKIE), Err(StunError::Ipv6NotSupported));
    assert_eq!(
        StunClient::parse_xor_mapped(&[0, 7, 0, 0], &COOKIE),
        Err(StunError::UnknownAddressFamily { family: 7 })
    );
    let value = &xor_mapped([10, 20, 30, 40], 0x2112)[4..];
    assert_eq!(StunClient::parse_xor_mapped(value, &COOKIE), Ok(SocketAddr::v4(10, 20, 30, 40, 0x2112)));
}

#[test]
fn stun_error_messages() {
    assert_eq!(StunError::ResponseTooShort.message(), "Response too short / Ответ слишком короткий");
    assert_eq!(
        StunError::UnexpectedResponseType { msg_type: 0x0111 }.message(),
        format!("Unexpected response type: 0x{:04x} / Неожиданный тип ответа: 0x{:04x}", 0x0111, 0x0111)
    );
    assert_eq!(
        StunError::UnknownAddressFamily { family: 7 }.message(),
        format!("Unknown address family: {} / Неизвестное семейство адресов: {}", 7, 7)
    );
    assert_eq!(StunError::Ipv6NotSupported.message(), "IPv6 not supported yet / IPv6 пока не поддерживается");
}

#[test]
fn stun_fallback_order() {
    let servers = stun_servers();
    assert_eq!(servers.len(), 8);
    assert_eq!(servers[0], "stun.l.google.com:19302");
    assert_eq!(servers[7], "stun.iptel.ru:3478");
    assert_eq!(WESTERN_STUN_SERVERS, 3);
    assert!(servers[..3].iter().all(|s| !s.contains(".ru:")));
    assert_eq!(next_stun_step(0, None), StunStep::Query { index: 0 });
    assert_eq!(next_stun_step(5, None), StunStep::Query { index: 5 });
    assert_eq!(next_stun_step(8, None), StunStep::GiveUp);
    let a = SocketAddr::v4(1, 2, 3, 4, 5);
    assert_eq!(next_stun_step(2, Some(a)), StunStep::Found(a));
    assert_eq!(next_stun_step(8, Some(a)), StunStep::Found(a));
}
