//! STUN (RFC 5389) binding requests and the parsing of binding responses, by
//! which a node learns its external IP address and port. Sending and receiving
//! the datagrams is left to the caller.

use vstd::prelude::*;
use vstd::string::StringExecFns;
use crate::text::{decimal, hex_fixed, push_decimal, push_hex_fixed};
use vstd::slice::slice_subrange;
use crate::network::addr::{IpAddr, SocketAddr};
use crate::wire::{be16, be16_at, be32_value, read_be16, lemma_be16_roundtrip};

verus! {

/// STUN client: builds binding requests and reads binding responses.
pub struct StunClient;

/// The STUN magic cookie, 0x2112A442.
pub open spec fn spec_magic_cookie() -> Seq<u8> {
    seq![0x21u8, 0x12u8, 0xA4u8, 0x42u8]
}

/// Why a STUN response gave no address.
#[derive(Debug, Clone, Copy, PartialEq, Eq, Structural)]
pub enum StunError {
    /// Fewer than 20 bytes.
    ResponseTooShort,
    /// Bytes 4..8 are not the magic cookie.
    InvalidMagicCookie,
    /// A message type other than Binding Success Response (0x0101).
    UnexpectedResponseType { msg_type: u16 },
    /// Fewer bytes than the header announces.
    TruncatedResponse,
    /// No XOR-MAPPED-ADDRESS attribute.
    XorMappedAddressNotFound,
    /// The attribute is shorter than four bytes.
    XorMappedAddressTooShort,
    /// An IPv4 attribute shorter than eight bytes.
    Ipv4TooShort,
    /// An IPv6 address, which is not supported.
    Ipv6NotSupported,
    /// An address family other than IPv4 or IPv6.
    UnknownAddressFamily { family: u8 },
}

/// The text of a STUN response error.
pub open spec fn stun_error_text(e: StunError) -> Seq<char> {
    match e {
        StunError::ResponseTooShort => "Response too short / Ответ слишком короткий"@,
        StunError::InvalidMagicCookie => "Invalid magic cookie / Неверный magic cookie"@,
        StunError::UnexpectedResponseType { msg_type } => "Unexpected response type: 0x"@ + hex_fixed(msg_type as nat, 4) + " / Неожиданный тип ответа: 0x"@ + hex_fixed(msg_type as nat, 4),
        StunError::TruncatedResponse => "Truncated response / Усечённый ответ"@,
        StunError::XorMappedAddressNotFound => "XOR-MAPPED-ADDRESS not found / XOR-MAPPED-ADDRESS не найден"@,
        StunError::XorMappedAddressTooShort => "XOR-MAPPED-ADDRESS too short / XOR-MAPPED-ADDRESS слишком короткий"@,
        StunError::Ipv4TooShort => "IPv4 XOR-MAPPED-ADDRESS too short / IPv4 XOR-MAPPED-ADDRESS слишком короткий"@,
        StunError::Ipv6NotSupported => "IPv6 not supported yet / IPv6 пока не поддерживается"@,
        StunError::UnknownAddressFamily { family } => "Unknown address family: "@ + decimal(family as nat) + " / Неизвестное семейство адресов: "@ + decimal(family as nat),
    }
}

impl StunError {
    /// The text of the error.
    pub fn message(&self) -> (r: String)
        ensures
            r@ == stun_error_text(*self),
    {
        let mut r = String::new();
        match *self {
            StunError::ResponseTooShort => {
                r.append("Response too short / Ответ слишком короткий");
            },
            StunError::InvalidMagicCookie => {
                r.append("Invalid magic cookie / Неверный magic cookie");
            },
            StunError::UnexpectedResponseType { msg_type } => {
                r.append("Unexpected response type: 0x");
                push_hex_fixed(&mut r, msg_type as u64, 4);
                r.append(" / Неожиданный тип ответа: 0x");
                push_hex_fixed(&mut r, msg_type as u64, 4);
            },
            StunError::TruncatedResponse => {
                r.append("Truncated response / Усечённый ответ");
            },
            StunError::XorMappedAddressNotFound => {
                r.append("XOR-MAPPED-ADDRESS not found / XOR-MAPPED-ADDRESS не найден");
            },
            StunError::XorMappedAddressTooShort => {
                r.append("XOR-MAPPED-ADDRESS too short / XOR-MAPPED-ADDRESS слишком короткий");
            },
            StunError::Ipv4TooShort => {
                r.append("IPv4 XOR-MAPPED-ADDRESS too short / IPv4 XOR-MAPPED-ADDRESS слишком короткий");
            },
            StunError::Ipv6NotSupported => {
                r.append("IPv6 not supported yet / IPv6 пока не поддерживается");
            },
            StunError::UnknownAddressFamily { family } => {
                r.append("Unknown address family: ");
                push_decimal(&mut r, family as u64);
                r.append(" / Неизвестное семейство адресов: ");
                push_decimal(&mut r, family as u64);
            },
        }
        assert(r@ =~= stun_error_text(*self));
        r
    }
}

/// The bytes of a Binding Request with the given transaction id.
pub open spec fn spec_binding_request(transaction_id: Seq<u8>) -> Seq<u8> {
    seq![0x00u8, 0x01u8, 0x00u8, 0x00u8] + spec_magic_cookie() + transaction_id
}

/// What a XOR-MAPPED-ADDRESS attribute value gives, with the cookie used to unmask it.
pub open spec fn spec_parse_xor_mapped(data: Seq<u8>, cookie: Seq<u8>) -> Result<SocketAddr, StunError> {
    if data.len() < 4 {
        Err(StunError::XorMappedAddressTooShort)
    } else if data[1] == 1 {
        if data.len() < 8 {
            Err(StunError::Ipv4TooShort)
        } else {
            Ok(
                SocketAddr {
                    ip: IpAddr::V4(
                        be32_value(
                            data[4] ^ cookie[0],
                            data[5] ^ cookie[1],
                            data[6] ^ cookie[2],
                            data[7] ^ cookie[3],
                        ),
                    ),
                    port: be16_at(data, 2) ^ 0x2112u16,
                },
            )
        }
    } else if data[1] == 2 {
        Err(StunError::Ipv6NotSupported)
    } else {
        Err(StunError::UnknownAddressFamily { family: data[1] })
    }
}

/// Attribute length rounded up to a multiple of four.
pub open spec fn padded(len: int) -> int {
    (len + 3) / 4 * 4
}

/// Scans the attributes from `pos` up to `end` for XOR-MAPPED-ADDRESS.
pub open spec fn spec_scan_attributes(data: Seq<u8>, pos: int, end: int) -> Result<SocketAddr, StunError>
    decreases if end > pos {
        end - pos
    } else {
        0
    },
{
    if pos >= end || pos + 4 > data.len() {
        Err(StunError::XorMappedAddressNotFound)
    } else {
        let attr_type = be16_at(data, pos);
        let attr_len = be16_at(data, pos + 2) as int;
        if attr_type == 0x0020 && pos + 4 + attr_len <= data.len() {
            spec_parse_xor_mapped(data.subrange(pos + 4, pos + 4 + attr_len), data.subrange(4, 8))
        } else {
            proof {
                assert(padded(attr_len) >= 0);
            }
            spec_scan_attributes(data, pos + 4 + padded(attr_len), end)
        }
    }
}

/// What a Binding Response gives: the external address, or why there is none.
pub open spec fn spec_parse_response(data: Seq<u8>) -> Result<SocketAddr, StunError> {
    if data.len() < 20 {
        Err(StunError::ResponseTooShort)
    } else if data.subrange(4, 8) != spec_magic_cookie() {
        Err(StunError::InvalidMagicCookie)
    } else if be16_at(data, 0) != 0x0101 {
        Err(StunError::UnexpectedResponseType { msg_type: be16_at(data, 0) })
    } else if data.len() < 20 + be16_at(data, 2) {
        Err(StunError::TruncatedResponse)
    } else {
        spec_scan_attributes(data, 20, 20 + be16_at(data, 2))
    }
}

/// The value of a XOR-MAPPED-ADDRESS attribute for the IPv4 address
/// `a.b.c.d:port`, as a server encodes it: family 1, the port XOR 0x2112, the
/// address XOR the magic cookie.
pub open spec fn spec_xor_mapped_ipv4(a: u8, b: u8, c: u8, d: u8, port: u16) -> Seq<u8> {
    seq![0x00u8, 0x01u8] + be16(port ^ 0x2112u16) + seq![a ^ 0x21u8, b ^ 0x12u8, c ^ 0xA4u8, d ^ 0x42u8]
}

/// A Binding Success Response with the given transaction id whose only
/// attribute is a XOR-MAPPED-ADDRESS with the given value.
pub open spec fn spec_binding_response(transaction_id: Seq<u8>, value: Seq<u8>) -> Seq<u8> {
    seq![0x01u8, 0x01u8] + be16((4 + value.len()) as u16) + spec_magic_cookie() + transaction_id
        + seq![0x00u8, 0x20u8] + be16(value.len() as u16) + value
}

/// Parsing the response of a server that reports the IPv4 address
/// `a.b.c.d:port` gives that address back.
pub proof fn law_response_gives_mapped_address(transaction_id: Seq<u8>, a: u8, b: u8, c: u8, d: u8, port: u16)
    requires
        transaction_id.len() == 12,
    ensures
        spec_parse_response(spec_binding_response(transaction_id, spec_xor_mapped_ipv4(a, b, c, d, port)))
            == Ok::<SocketAddr, StunError>(
            SocketAddr { ip: IpAddr::V4(be32_value(a, b, c, d)), port },
        ),
{
    let value = spec_xor_mapped_ipv4(a, b, c, d, port);
    let data = spec_binding_response(transaction_id, value);
    let xport = port ^ 0x2112u16;
    lemma_be16_roundtrip(12);
    lemma_be16_roundtrip(8);
    lemma_be16_roundtrip(xport);
    assert(value.len() == 8);
    assert(data.len() == 32);
    assert(data.subrange(4, 8) =~= spec_magic_cookie());
    assert(be16_at(data, 0) == 0x0101);
    assert(be16_at(data, 2) == 12);
    assert(be16_at(data, 20) == 0x0020);
    assert(be16_at(data, 22) == 8);
    let attr = data.subrange(24, 32);
    assert(attr =~= value);
    assert(be16_at(attr, 2) == xport);
    assert((port ^ 0x2112u16) ^ 0x2112u16 == port) by (bit_vector);
    assert((a ^ 0x21u8) ^ 0x21u8 == a) by (bit_vector);
    assert((b ^ 0x12u8) ^ 0x12u8 == b) by (bit_vector);
    assert((c ^ 0xA4u8) ^ 0xA4u8 == c) by (bit_vector);
    assert((d ^ 0x42u8) ^ 0x42u8 == d) by (bit_vector);
    assert(spec_scan_attributes(data, 20, 32) == spec_parse_xor_mapped(attr, data.subrange(4, 8)));
}

/// Decoding the XOR-MAPPED-ADDRESS value that a server writes for the IPv4
/// address `a.b.c.d:port` gives that address back.
proof fn lemma_xor_mapped_ipv4_roundtrip(a: u8, b: u8, c: u8, d: u8, port: u16)
    ensures
        spec_parse_xor_mapped(spec_xor_mapped_ipv4(a, b, c, d, port), spec_magic_cookie())
            == Ok::<SocketAddr, StunError>(SocketAddr { ip: IpAddr::V4(be32_value(a, b, c, d)), port }),
{
    let value = spec_xor_mapped_ipv4(a, b, c, d, port);
    let xport = port ^ 0x2112u16;
    lemma_be16_roundtrip(xport);
    assert(value.len() == 8);
    assert(be16_at(value, 2) == xport);
    assert((port ^ 0x2112u16) ^ 0x2112u16 == port) by (bit_vector);
    assert((a ^ 0x21u8) ^ 0x21u8 == a) by (bit_vector);
    assert((b ^ 0x12u8) ^ 0x12u8 == b) by (bit_vector);
    assert((c ^ 0xA4u8) ^ 0xA4u8 == c) by (bit_vector);
    assert((d ^ 0x42u8) ^ 0x42u8 == d) by (bit_vector);
}

/// Zero bytes that pad an attribute value of length `len` to a multiple of four.
pub open spec fn attr_padding(len: nat) -> nat {
    ((4 - len % 4) % 4) as nat
}

/// The bytes of one attribute: its type, the length of its value, the value,
/// and zero bytes up to the next multiple of four.
pub open spec fn spec_attribute(attr_type: u16, value: Seq<u8>) -> Seq<u8> {
    be16(attr_type) + be16(value.len() as u16) + value + Seq::new(attr_padding(value.len()), |i: int| 0u8)
}

/// The bytes of a list of attributes, one after the other.
pub open spec fn spec_attributes(attrs: Seq<(u16, Seq<u8>)>) -> Seq<u8>
    decreases attrs.len(),
{
    if attrs.len() == 0 {
        seq![]
    } else {
        spec_attribute(attrs[0].0, attrs[0].1) + spec_attributes(attrs.drop_first())
    }
}

/// A Binding Success Response with the given transaction id and attribute bytes.
pub open spec fn spec_response_with(transaction_id: Seq<u8>, attributes: Seq<u8>) -> Seq<u8> {
    seq![0x01u8, 0x01u8] + be16(attributes.len() as u16) + spec_magic_cookie() + transaction_id + attributes
}

/// The parser steps over an attribute value padded to a multiple of four:
/// four header bytes and the padded value.
proof fn lemma_padded_is_padding(len: nat)
    ensures
        padded(len as int) == len + attr_padding(len),
{
    let q = len / 4;
    let r = len % 4;
    assert(len == 4 * q + r);
    if r == 0 {
        vstd::arithmetic::div_mod::lemma_fundamental_div_mod_converse((len + 3) as int, 4, q as int, 3);
    } else {
        vstd::arithmetic::div_mod::lemma_fundamental_div_mod_converse((len + 3) as int, 4, (q + 1) as int, (r - 1) as int);
    }
}

/// Scanning skips whole attributes that are no XOR-MAPPED-ADDRESS.
proof fn lemma_scan_skips_attributes(data: Seq<u8>, pos: int, end: int, attrs: Seq<(u16, Seq<u8>)>)
    requires
        0 <= pos,
        pos + spec_attributes(attrs).len() <= end <= data.len(),
        data.subrange(pos, pos + spec_attributes(attrs).len()) == spec_attributes(attrs),
        forall|k: int| 0 <= k < attrs.len() ==> (#[trigger] attrs[k]).0 != 0x0020u16 && attrs[k].1.len() <= 0xffff,
    ensures
        spec_scan_attributes(data, pos, end) == spec_scan_attributes(data, pos + spec_attributes(attrs).len(), end),
    decreases attrs.len(),
{
    if attrs.len() > 0 {
        let t = attrs[0].0;
        let v = attrs[0].1;
        let first = spec_attribute(t, v);
        let tail = spec_attributes(attrs.drop_first());
        let f = first.len() as int;
        assert(attrs[0].0 != 0x0020u16 && v.len() <= 0xffff);
        assert(spec_attributes(attrs) == first + tail);
        assert(f == 4 + v.len() + attr_padding(v.len()));
        lemma_be16_roundtrip(t);
        lemma_be16_roundtrip(v.len() as u16);
        let whole = spec_attributes(attrs);
        assert forall|j: int| 0 <= j < f implies data[pos + j] == #[trigger] first[j] by {
            assert(data[pos + j] == data.subrange(pos, pos + whole.len())[j]);
            assert(whole[j] == first[j]);
        }
        assert(data[pos] == first[0] && data[pos + 1] == first[1]);
        assert(data[pos + 2] == first[2] && data[pos + 3] == first[3]);
        assert(first[0] == be16(t)[0] && first[1] == be16(t)[1]);
        assert(first[2] == be16(v.len() as u16)[0] && first[3] == be16(v.len() as u16)[1]);
        assert(be16_at(data, pos) == t);
        assert(be16_at(data, pos + 2) == v.len());
        lemma_padded_is_padding(v.len());
        assert(spec_scan_attributes(data, pos, end) == spec_scan_attributes(data, pos + f, end));
        assert(data.subrange(pos + f, pos + f + tail.len()) =~= tail) by {
            assert forall|j: int| 0 <= j < tail.len() implies data.subrange(pos + f, pos + f + tail.len())[j]
                == tail[j] by {
                assert(data[pos + f + j] == spec_attributes(attrs)[f + j]);
            }
        }
        assert forall|k: int| 0 <= k < attrs.drop_first().len() implies (#[trigger] attrs.drop_first()[k]).0
            != 0x0020u16 && attrs.drop_first()[k].1.len() <= 0xffff by {
            assert(attrs.drop_first()[k] == attrs[k + 1]);
        }
        lemma_scan_skips_attributes(data, pos + f, end, attrs.drop_first());
    }
}

/// Parsing a response whose attributes are well formed gives the address of
/// the first XOR-MAPPED-ADDRESS among them: the attributes before it, of any
/// other type and any length, are stepped over whole (header, value and
/// padding), and whatever follows it is not read.
pub proof fn law_response_first_xor_mapped_address(
    transaction_id: Seq<u8>,
    before: Seq<(u16, Seq<u8>)>,
    a: u8,
    b: u8,
    c: u8,
    d: u8,
    port: u16,
    rest: Seq<u8>,
)
    requires
        transaction_id.len() == 12,
        forall|k: int| 0 <= k < before.len() ==> (#[trigger] before[k]).0 != 0x0020u16 && before[k].1.len() <= 0xffff,
        spec_attributes(before).len() + 12 + rest.len() <= 0xffff,
    ensures
        spec_parse_response(
            spec_response_with(
                transaction_id,
                spec_attributes(before) + spec_attribute(0x0020u16, spec_xor_mapped_ipv4(a, b, c, d, port)) + rest,
            ),
        ) == Ok::<SocketAddr, StunError>(SocketAddr { ip: IpAddr::V4(be32_value(a, b, c, d)), port }),
{
    let value = spec_xor_mapped_ipv4(a, b, c, d, port);
    let pre = spec_attributes(before);
    let xattr = spec_attribute(0x0020u16, value);
    let body = pre + xattr + rest;
    let data = spec_response_with(transaction_id, body);
    assert(value.len() == 8);
    assert(attr_padding(8) == 0);
    assert(xattr.len() == 12);
    lemma_be16_roundtrip(body.len() as u16);
    lemma_be16_roundtrip(0x0020u16);
    lemma_be16_roundtrip(8u16);
    let end: int = 20 + body.len() as int;
    assert(data.len() == end);
    assert(data.subrange(4, 8) =~= spec_magic_cookie());
    assert(be16_at(data, 0) == 0x0101);
    assert(be16_at(data, 2) == body.len());
    let q: int = 20 + pre.len() as int;
    assert(data.subrange(20, q) =~= pre);
    lemma_scan_skips_attributes(data, 20, end, before);
    assert(data[q] == xattr[0] && data[q + 1] == xattr[1]);
    assert(data[q + 2] == xattr[2] && data[q + 3] == xattr[3]);
    assert(be16_at(data, q) == 0x0020);
    assert(be16_at(data, q + 2) == 8);
    assert(data.subrange(q + 4, q + 12) =~= value);
    lemma_xor_mapped_ipv4_roundtrip(a, b, c, d, port);
    assert(spec_scan_attributes(data, q, end) == spec_parse_xor_mapped(
        data.subrange(q + 4, q + 12),
        data.subrange(4, 8),
    ));
}

/// The STUN servers, in the order they are tried: three western servers
/// (usually faster) first, then five Russian ones.
pub open spec fn stun_server_names() -> Seq<Seq<char>> {
    seq![
        "stun.l.google.com:19302"@,
        "stun.cloudflare.com:3478"@,
        "global.stun.twilio.com:3478"@,
        "stun.sipnet.ru:3478"@,
        "stun.ipshka.com:3478"@,
        "stun.magenta.ru:3478"@,
        "stun.niisi.ru:3478"@,
        "stun.iptel.ru:3478"@,
    ]
}

/// How many of the servers, at the front of the list, are western ones.
pub const WESTERN_STUN_SERVERS: usize = 3;

/// The STUN servers, in the order they are tried.
pub fn stun_servers() -> (r: Vec<&'static str>)
    ensures
        r@.map_values(|s: &str| s@) == stun_server_names(),
{
    let r: Vec<&'static str> = vec![
        "stun.l.google.com:19302",
        "stun.cloudflare.com:3478",
        "global.stun.twilio.com:3478",
        "stun.sipnet.ru:3478",
        "stun.ipshka.com:3478",
        "stun.magenta.ru:3478",
        "stun.niisi.ru:3478",
        "stun.iptel.ru:3478",
    ];
    assert(r@.map_values(|s: &str| s@) =~= stun_server_names());
    r
}

/// What discovery does next.
#[derive(Debug, Clone, Copy, PartialEq, Eq, Structural)]
pub enum StunStep {
    /// Query the server at this position of the list.
    Query { index: usize },
    /// A server answered with this external address: stop.
    Found(SocketAddr),
    /// Every server failed.
    GiveUp,
}

/// The next step of discovery after `tried` servers were queried, the last
/// of them answering with `found` where it answered: the first answer ends the
/// search; otherwise the servers are tried in order until none is left.
pub fn next_stun_step(tried: usize, found: Option<SocketAddr>) -> (r: StunStep)
    ensures
        r == match found {
            Some(a) => StunStep::Found(a),
            None => if tried < stun_server_names().len() {
                StunStep::Query { index: tried }
            } else {
                StunStep::GiveUp
            },
        },
{
    match found {
        Some(a) => StunStep::Found(a),
        None => if tried < 8 {
            StunStep::Query { index: tried }
        } else {
            StunStep::GiveUp
        },
    }
}

/// Twelve random bytes (`rand::random`). Nothing is said of them.
#[verifier::external_body]
fn random_transaction_id() -> (r: [u8; 12]) {
    rand::random::<[u8; 12]>()
}

impl StunClient {
    /// Builds a Binding Request with the given 12-byte transaction id.
    pub fn build_binding_request_with_id(transaction_id: [u8; 12]) -> (r: Vec<u8>)
        ensures
            r@ == spec_binding_request(transaction_id@),
    {
        let mut msg: Vec<u8> = Vec::new();
        msg.push(0x00);
        msg.push(0x01);
        msg.push(0x00);
        msg.push(0x00);
        msg.push(0x21);
        msg.push(0x12);
        msg.push(0xA4);
        msg.push(0x42);
        let mut i: usize = 0;
        while i < 12
            invariant
                i <= 12,
                msg@ == seq![0x00u8, 0x01u8, 0x00u8, 0x00u8] + spec_magic_cookie()
                    + transaction_id@.subrange(0, i as int),
            decreases 12 - i,
        {
            msg.push(transaction_id[i]);
            i = i + 1;
            assert(msg@ =~= seq![0x00u8, 0x01u8, 0x00u8, 0x00u8] + spec_magic_cookie()
                + transaction_id@.subrange(0, i as int));
        }
        assert(transaction_id@.subrange(0, 12) =~= transaction_id@);
        msg
    }

    /// Builds a Binding Request with a random transaction id: the request of
    /// some 12-byte id, which is left to chance.
    pub fn build_binding_request() -> (r: Vec<u8>)
        ensures
            r@.len() == 20,
            r@ == spec_binding_request(r@.subrange(8, 20)),
    {
        let tid = random_transaction_id();
        let r = Self::build_binding_request_with_id(tid);
        assert(r@.subrange(8, 20) =~= tid@);
        r
    }

    /// Parses a XOR-MAPPED-ADDRESS attribute value, unmasking it with the cookie.
    pub fn parse_xor_mapped(data: &[u8], magic_cookie: &[u8]) -> (r: Result<SocketAddr, StunError>)
        requires
            magic_cookie@.len() >= 4,
        ensures
            r == spec_parse_xor_mapped(data@, magic_cookie@),
    {
        if data.len() < 4 {
            return Err(StunError::XorMappedAddressTooShort);
        }
        let family = data[1];
        if family == 0x01 {
            if data.len() < 8 {
                return Err(StunError::Ipv4TooShort);
            }
            let xport = read_be16(data, 2);
            let port = xport ^ 0x2112;
            let a = data[4] ^ magic_cookie[0];
            let b = data[5] ^ magic_cookie[1];
            let c = data[6] ^ magic_cookie[2];
            let d = data[7] ^ magic_cookie[3];
            Ok(SocketAddr::v4(a, b, c, d, port))
        } else if family == 0x02 {
            Err(StunError::Ipv6NotSupported)
        } else {
            Err(StunError::UnknownAddressFamily { family })
        }
    }

    /// Parses a Binding Response and returns the XOR-MAPPED-ADDRESS it carries.
    pub fn parse_response(data: &[u8]) -> (r: Result<SocketAddr, StunError>)
        ensures
            r == spec_parse_response(data@),
    {
        let n = data.len();
        if n < 20 {
            return Err(StunError::ResponseTooShort);
        }
        if !(data[4] == 0x21 && data[5] == 0x12 && data[6] == 0xA4 && data[7] == 0x42) {
            proof {
                if data@.subrange(4, 8) == spec_magic_cookie() {
                    assert(data@[4] == data@.subrange(4, 8)[0]);
                    assert(data@[5] == data@.subrange(4, 8)[1]);
                    assert(data@[6] == data@.subrange(4, 8)[2]);
                    assert(data@[7] == data@.subrange(4, 8)[3]);
                }
            }
            return Err(StunError::InvalidMagicCookie);
        }
        assert(data@.subrange(4, 8) =~= spec_magic_cookie());
        let msg_type = read_be16(data, 0);
        if msg_type != 0x0101 {
            return Err(StunError::UnexpectedResponseType { msg_type });
        }
        let msg_len = read_be16(data, 2) as usize;
        if n < 20 + msg_len {
            return Err(StunError::TruncatedResponse);
        }
        let end = 20 + msg_len;
        let cookie = slice_subrange(data, 4, 8);
        let mut pos: usize = 20;
        while pos < end
            invariant
                n == data@.len(),
                end == 20 + msg_len,
                msg_len <= 0xffff,
                end <= n,
                20 <= pos <= end + 4 + 0x10002,
                cookie@ == data@.subrange(4, 8),
                spec_parse_response(data@) == spec_scan_attributes(data@, pos as int, end as int),
            decreases if end > pos {
                end - pos
            } else {
                0
            },
        {
            if pos + 4 > n {
                return Err(StunError::XorMappedAddressNotFound);
            }
            let attr_type = read_be16(data, pos);
            let attr_len = read_be16(data, pos + 2) as usize;
            if attr_type == 0x0020 && pos + 4 + attr_len <= n {
                return Self::parse_xor_mapped(slice_subrange(data, pos + 4, pos + 4 + attr_len), cookie);
            }
            let padded_len = (attr_len + 3) / 4 * 4;
            pos = pos + 4 + padded_len;
        }
        Err(StunError::XorMappedAddressNotFound)
    }
}

} // verus!
