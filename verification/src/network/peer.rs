//! A remote node of the network with its addresses and metadata, and its
//! binary encoding.
//!
//! ```text
//! [id: 32] [addr_count: 1] ([ip_type: 1 = 4 | 6] [ip: 4 | 16] [port: 2 BE])*
//! [last_seen: 8 BE] [is_relay: 1] [reputation: 4 BE]
//! ```

use vstd::prelude::*;
use vstd::string::StringExecFns;
use crate::text::{decimal, push_decimal};
use crate::network::addr::{IpAddr, SocketAddr};
use crate::network::addr_text::socket_addr_text;
use crate::protocol::peer_id::{PeerId, is_endpoint_key, lemma_peer_id_len};
use crate::wire::{
    be16, be16_at, be32, be32_at, be64, be64_at, be128, be128_at, push_be16, push_be32, push_be64,
    push_be128, read_be16, read_be32, read_be64, read_be128, lemma_be16_roundtrip,
    lemma_be32_roundtrip, lemma_be64_roundtrip, lemma_be128_roundtrip,
};

verus! {

/// Why bytes could not be decoded into a peer.
#[derive(Debug, Clone, Copy, PartialEq, Eq, Structural)]
pub enum PeerDecodeError {
    /// Fewer than 32 bytes for the id.
    TooShortForId,
    /// The id bytes are not a valid endpoint key.
    InvalidId,
    /// No byte left for the address count.
    TooShortForAddrCount,
    /// No byte left for an address type.
    TooShortForAddrType,
    /// Too few bytes left for an IPv4 address and port.
    TooShortForIpv4,
    /// Too few bytes left for an IPv6 address and port.
    TooShortForIpv6,
    /// An address type other than 4 or 6.
    UnknownIpType { ip_type: u8 },
    /// Too few bytes left for the timestamp.
    TooShortForTimestamp,
    /// No byte left for the relay flag.
    TooShortForRelayFlag,
    /// Too few bytes left for the reputation.
    TooShortForReputation,
}

/// The text of a peer decoding error.
pub open spec fn peer_decode_error_text(e: PeerDecodeError) -> Seq<char> {
    match e {
        PeerDecodeError::TooShortForId => "Data too short for ID / Данные слишком короткие для ID"@,
        PeerDecodeError::InvalidId => "Invalid EndpointId bytes / Некорректные байты EndpointId"@,
        PeerDecodeError::TooShortForAddrCount => "Data too short for addr count / Данные слишком короткие для количества адресов"@,
        PeerDecodeError::TooShortForAddrType => "Data too short for addr type / Данные слишком короткие для типа адреса"@,
        PeerDecodeError::TooShortForIpv4 => "Data too short for IPv4 / Данные слишком короткие для IPv4"@,
        PeerDecodeError::TooShortForIpv6 => "Data too short for IPv6 / Данные слишком короткие для IPv6"@,
        PeerDecodeError::UnknownIpType { ip_type } => "Unknown IP type: "@ + decimal(ip_type as nat) + " / Неизвестный тип IP: "@ + decimal(ip_type as nat),
        PeerDecodeError::TooShortForTimestamp => "Data too short for timestamp / Данные слишком короткие для timestamp"@,
        PeerDecodeError::TooShortForRelayFlag => "Data too short for relay flag / Данные слишком короткие для флага ретрансляции"@,
        PeerDecodeError::TooShortForReputation => "Data too short for reputation / Данные слишком короткие для репутации"@,
    }
}

impl PeerDecodeError {
    /// The text of the error.
    pub fn message(&self) -> (r: String)
        ensures
            r@ == peer_decode_error_text(*self),
    {
        let mut r = String::new();
        match *self {
            PeerDecodeError::TooShortForId => {
                r.append("Data too short for ID / Данные слишком короткие для ID");
            },
            PeerDecodeError::InvalidId => {
                r.append("Invalid EndpointId bytes / Некорректные байты EndpointId");
            },
            PeerDecodeError::TooShortForAddrCount => {
                r.append("Data too short for addr count / Данные слишком короткие для количества адресов");
            },
            PeerDecodeError::TooShortForAddrType => {
                r.append("Data too short for addr type / Данные слишком короткие для типа адреса");
            },
            PeerDecodeError::TooShortForIpv4 => {
                r.append("Data too short for IPv4 / Данные слишком короткие для IPv4");
            },
            PeerDecodeError::TooShortForIpv6 => {
                r.append("Data too short for IPv6 / Данные слишком короткие для IPv6");
            },
            PeerDecodeError::UnknownIpType { ip_type } => {
                r.append("Unknown IP type: ");
                push_decimal(&mut r, ip_type as u64);
                r.append(" / Неизвестный тип IP: ");
                push_decimal(&mut r, ip_type as u64);
            },
            PeerDecodeError::TooShortForTimestamp => {
                r.append("Data too short for timestamp / Данные слишком короткие для timestamp");
            },
            PeerDecodeError::TooShortForRelayFlag => {
                r.append("Data too short for relay flag / Данные слишком короткие для флага ретрансляции");
            },
            PeerDecodeError::TooShortForReputation => {
                r.append("Data too short for reputation / Данные слишком короткие для репутации");
            },
        }
        assert(r@ =~= peer_decode_error_text(*self));
        r
    }
}

/// The mathematical content of a peer.
pub struct SpecPeer {
    pub id: Seq<u8>,
    pub addrs: Seq<SocketAddr>,
    pub last_seen: u64,
    pub is_relay: bool,
    pub reputation: u32,
}

/// The encoding of one address.
pub open spec fn spec_addr_bytes(a: SocketAddr) -> Seq<u8> {
    match a.ip {
        IpAddr::V4(bits) => seq![4u8] + be32(bits) + be16(a.port),
        IpAddr::V6(bits) => seq![6u8] + be128(bits) + be16(a.port),
    }
}

/// The encoding of a list of addresses, one after the other.
pub open spec fn spec_addrs_bytes(s: Seq<SocketAddr>) -> Seq<u8>
    decreases s.len(),
{
    if s.len() == 0 {
        seq![]
    } else {
        spec_addrs_bytes(s.drop_last()) + spec_addr_bytes(s.last())
    }
}

/// The encoding of a peer.
pub open spec fn spec_peer_bytes(p: SpecPeer) -> Seq<u8> {
    p.id + seq![p.addrs.len() as u8] + spec_addrs_bytes(p.addrs) + be64(p.last_seen) + seq![
        if p.is_relay {
            1u8
        } else {
            0u8
        },
    ] + be32(p.reputation)
}

/// Decoding one address at a position: the address and the position after it.
pub open spec fn spec_parse_addr(data: Seq<u8>, pos: int) -> Result<(SocketAddr, int), PeerDecodeError> {
    if data.len() < pos + 1 {
        Err(PeerDecodeError::TooShortForAddrType)
    } else if data[pos] == 4 {
        if data.len() < pos + 1 + 4 + 2 {
            Err(PeerDecodeError::TooShortForIpv4)
        } else {
            Ok((SocketAddr { ip: IpAddr::V4(be32_at(data, pos + 1)), port: be16_at(data, pos + 5) }, pos + 7))
        }
    } else if data[pos] == 6 {
        if data.len() < pos + 1 + 16 + 2 {
            Err(PeerDecodeError::TooShortForIpv6)
        } else {
            Ok((
                SocketAddr { ip: IpAddr::V6(be128_at(data, pos + 1)), port: be16_at(data, pos + 17) },
                pos + 19,
            ))
        }
    } else {
        Err(PeerDecodeError::UnknownIpType { ip_type: data[pos] })
    }
}

/// Decoding `count` addresses from a position: the addresses and the position after them.
pub open spec fn spec_parse_addrs(data: Seq<u8>, pos: int, count: nat) -> Result<
    (Seq<SocketAddr>, int),
    PeerDecodeError,
>
    decreases count,
{
    if count == 0 {
        Ok((seq![], pos))
    } else {
        match spec_parse_addrs(data, pos, (count - 1) as nat) {
            Ok((s, p)) => match spec_parse_addr(data, p) {
                Ok((a, q)) => Ok((s.push(a), q)),
                Err(e) => Err(e),
            },
            Err(e) => Err(e),
        }
    }
}

/// What decoding bytes gives: a peer, or the first check that fails.
/// Bytes after the reputation are ignored.
pub open spec fn spec_peer_from_bytes(data: Seq<u8>) -> Result<SpecPeer, PeerDecodeError> {
    if data.len() < 32 {
        Err(PeerDecodeError::TooShortForId)
    } else if data.len() < 33 {
        Err(PeerDecodeError::TooShortForAddrCount)
    } else {
        match spec_parse_addrs(data, 33, data[32] as nat) {
            Err(e) => Err(e),
            Ok((addrs, pos)) => {
                if data.len() < pos + 8 {
                    Err(PeerDecodeError::TooShortForTimestamp)
                } else if data.len() < pos + 9 {
                    Err(PeerDecodeError::TooShortForRelayFlag)
                } else if data.len() < pos + 13 {
                    Err(PeerDecodeError::TooShortForReputation)
                } else {
                    Ok(
                        SpecPeer {
                            id: data.subrange(0, 32),
                            addrs,
                            last_seen: be64_at(data, pos),
                            is_relay: data[pos + 8] != 0,
                            reputation: be32_at(data, pos + 9),
                        },
                    )
                }
            },
        }
    }
}

/// A peer's id is 32 bytes long.
pub proof fn lemma_peer_view_id_len(p: Peer)
    ensures
        p@.id.len() == 32,
{
    lemma_peer_id_len(p.spec_id());
}

/// Once decoding addresses fails, decoding more of them fails the same way.
proof fn lemma_parse_addrs_err(data: Seq<u8>, pos: int, k: nat, m: nat)
    requires
        spec_parse_addrs(data, pos, k) is Err,
        k <= m,
    ensures
        spec_parse_addrs(data, pos, m) == spec_parse_addrs(data, pos, k),
    decreases m,
{
    if m > k {
        lemma_parse_addrs_err(data, pos, k, (m - 1) as nat);
    }
}

/// Decoding an encoded address, wherever it stands, gives the address back.
proof fn lemma_parse_addr_roundtrip(data: Seq<u8>, pos: int, a: SocketAddr)
    requires
        0 <= pos,
        pos + spec_addr_bytes(a).len() <= data.len(),
        data.subrange(pos, pos + spec_addr_bytes(a).len()) == spec_addr_bytes(a),
    ensures
        spec_parse_addr(data, pos) == Ok::<(SocketAddr, int), PeerDecodeError>(
            (a, pos + spec_addr_bytes(a).len()),
        ),
{
    let enc = spec_addr_bytes(a);
    assert(data[pos] == enc[0]);
    lemma_be16_roundtrip(a.port);
    match a.ip {
        IpAddr::V4(bits) => {
            lemma_be32_roundtrip(bits);
            assert(data[pos + 1] == enc[1]);
            assert(data[pos + 2] == enc[2]);
            assert(data[pos + 3] == enc[3]);
            assert(data[pos + 4] == enc[4]);
            assert(data[pos + 5] == enc[5]);
            assert(data[pos + 6] == enc[6]);
        },
        IpAddr::V6(bits) => {
            assert(data.subrange(pos + 1, pos + 17) =~= enc.subrange(1, 17));
            assert(enc.subrange(1, 17) =~= be128(bits));
            lemma_be128_roundtrip(bits, data, pos + 1);
            assert(data[pos + 17] == enc[17]);
            assert(data[pos + 18] == enc[18]);
        },
    }
}

/// Decoding the encodings of a list of addresses gives the list back.
proof fn lemma_parse_addrs_roundtrip(data: Seq<u8>, pos: int, s: Seq<SocketAddr>)
    requires
        0 <= pos,
        pos + spec_addrs_bytes(s).len() <= data.len(),
        data.subrange(pos, pos + spec_addrs_bytes(s).len()) == spec_addrs_bytes(s),
    ensures
        spec_parse_addrs(data, pos, s.len()) == Ok::<(Seq<SocketAddr>, int), PeerDecodeError>(
            (s, pos + spec_addrs_bytes(s).len()),
        ),
    decreases s.len(),
{
    if s.len() == 0 {
        assert(s =~= seq![]);
    } else {
        let init = s.drop_last();
        let a = s.last();
        let ib = spec_addrs_bytes(init);
        let ab = spec_addr_bytes(a);
        let whole = spec_addrs_bytes(s);
        let mid: int = pos + ib.len();
        assert(whole == ib + ab);
        assert(data.subrange(pos, mid) == ib) by {
            assert(data.subrange(pos, mid) =~= whole.subrange(0, ib.len() as int));
            assert(whole.subrange(0, ib.len() as int) =~= ib);
        }
        assert(data.subrange(mid, mid + ab.len()) == ab) by {
            assert(data.subrange(mid, mid + ab.len()) =~= whole.subrange(
                ib.len() as int,
                (ib.len() + ab.len()) as int,
            ));
            assert(whole.subrange(ib.len() as int, (ib.len() + ab.len()) as int) =~= ab);
        }
        lemma_parse_addrs_roundtrip(data, pos, init);
        lemma_parse_addr_roundtrip(data, mid, a);
        assert(init.push(a) =~= s);
        assert((s.len() - 1) as nat == init.len());
    }
}

/// Decoding the encoding of a peer gives the peer back, for every peer with a
/// 32-byte id and at most 255 addresses (the count is one byte).
pub proof fn law_peer_bytes_roundtrip(p: SpecPeer)
    requires
        p.id.len() == 32,
        p.addrs.len() <= 255,
    ensures
        spec_peer_from_bytes(spec_peer_bytes(p)) == Ok::<SpecPeer, PeerDecodeError>(p),
{
    let data = spec_peer_bytes(p);
    let ab = spec_addrs_bytes(p.addrs);
    let flag: u8 = if p.is_relay { 1 } else { 0 };
    let e: int = 33 + ab.len() as int;
    assert(data == p.id + seq![p.addrs.len() as u8] + ab + be64(p.last_seen) + seq![flag] + be32(p.reputation));
    assert(data.len() == e + 13);
    assert(data[32] == p.addrs.len());
    assert(data.subrange(33, e) =~= ab);
    lemma_parse_addrs_roundtrip(data, 33, p.addrs);
    assert(data.subrange(e, e + 8) =~= be64(p.last_seen));
    lemma_be64_roundtrip(p.last_seen, data, e);
    assert(data[e + 8] == flag);
    lemma_be32_roundtrip(p.reputation);
    assert(data[e + 9] == be32(p.reputation)[0]);
    assert(data[e + 10] == be32(p.reputation)[1]);
    assert(data[e + 11] == be32(p.reputation)[2]);
    assert(data[e + 12] == be32(p.reputation)[3]);
    assert(data.subrange(0, 32) =~= p.id);
}

/// Appends the encoding of an address.
fn push_addr(buf: &mut Vec<u8>, a: SocketAddr)
    ensures
        final(buf)@ == old(buf)@ + spec_addr_bytes(a),
{
    match a.ip {
        IpAddr::V4(bits) => {
            buf.push(4);
            push_be32(buf, bits);
        },
        IpAddr::V6(bits) => {
            buf.push(6);
            push_be128(buf, bits);
        },
    }
    push_be16(buf, a.port);
    assert(buf@ =~= old(buf)@ + spec_addr_bytes(a));
}

/// Decodes one address at a position.
fn parse_addr(data: &[u8], pos: usize) -> (r: Result<(SocketAddr, usize), PeerDecodeError>)
    requires
        pos <= data@.len(),
    ensures
        spec_parse_addr(data@, pos as int) == (match r {
            Ok((a, q)) => Ok((a, q as int)),
            Err(e) => Err(e),
        }),
        r matches Ok((a, q)) ==> q <= data@.len(),
{
    let n = data.len();
    if n - pos < 1 {
        return Err(PeerDecodeError::TooShortForAddrType);
    }
    let ip_type = data[pos];
    if ip_type == 4 {
        if n - pos < 1 + 4 + 2 {
            return Err(PeerDecodeError::TooShortForIpv4);
        }
        let bits = read_be32(data, pos + 1);
        let port = read_be16(data, pos + 5);
        Ok((SocketAddr { ip: IpAddr::V4(bits), port }, pos + 7))
    } else if ip_type == 6 {
        if n - pos < 1 + 16 + 2 {
            return Err(PeerDecodeError::TooShortForIpv6);
        }
        let bits = read_be128(data, pos + 1);
        let port = read_be16(data, pos + 17);
        Ok((SocketAddr { ip: IpAddr::V6(bits), port }, pos + 19))
    } else {
        Err(PeerDecodeError::UnknownIpType { ip_type })
    }
}

/// Remote peer in the network.
pub struct Peer {
    id: PeerId,
    addrs: Vec<SocketAddr>,
    last_seen: u64,
    is_relay: bool,
    reputation: u32,
}

impl View for Peer {
    type V = SpecPeer;

    closed spec fn view(&self) -> SpecPeer {
        SpecPeer {
            id: self.id@,
            addrs: self.addrs@,
            last_seen: self.last_seen,
            is_relay: self.is_relay,
            reputation: self.reputation,
        }
    }
}

impl Peer {
    /// The peer's id.
    pub closed spec fn spec_id(&self) -> PeerId {
        self.id
    }

    /// Creates a new peer with one address, never seen, no relay, zero reputation.
    pub fn new(id: PeerId, addr: SocketAddr) -> (r: Self)
        ensures
            r.spec_id() == id,
            r@ == (SpecPeer { id: id@, addrs: seq![addr], last_seen: 0, is_relay: false, reputation: 0 }),
    {
        let mut addrs: Vec<SocketAddr> = Vec::new();
        addrs.push(addr);
        Peer { id, addrs, last_seen: 0, is_relay: false, reputation: 0 }
    }

    /// Adds an address if it is not already present.
    pub fn add_addr(&mut self, addr: SocketAddr)
        ensures
            final(self).spec_id() == old(self).spec_id(),
            final(self)@ == (SpecPeer {
                addrs: if old(self)@.addrs.contains(addr) {
                    old(self)@.addrs
                } else {
                    old(self)@.addrs.push(addr)
                },
                ..old(self)@
            }),
    {
        let mut i: usize = 0;
        let n = self.addrs.len();
        while i < n
            invariant
                n == self.addrs@.len(),
                i <= n,
                forall|j: int| 0 <= j < i ==> self.addrs@[j] != addr,
            decreases n - i,
        {
            if self.addrs[i] == addr {
                return;
            }
            i = i + 1;
        }
        self.addrs.push(addr);
    }

    /// The primary endpoint: the text of the first address, or `unknown`
    /// when the peer has none.
    pub fn endpoint(&self) -> (r: String)
        ensures
            r@ == if self@.addrs.len() == 0 {
                "unknown"@
            } else {
                socket_addr_text(self@.addrs[0])
            },
    {
        if self.addrs.len() == 0 {
            "unknown".to_owned()
        } else {
            self.addrs[0].to_string()
        }
    }

    /// Whether the peer has not been seen for more than `timeout_sec` seconds at time `now`.
    pub fn is_stale(&self, now: u64, timeout_sec: u64) -> (r: bool)
        ensures
            r == (if now >= self@.last_seen {
                now - self@.last_seen
            } else {
                0
            } > timeout_sec),
    {
        now.saturating_sub(self.last_seen) > timeout_sec
    }

    /// Sets the time at which the peer was last seen.
    pub fn update_seen(&mut self, timestamp: u64)
        ensures
            final(self).spec_id() == old(self).spec_id(),
            final(self)@ == (SpecPeer { last_seen: timestamp, ..old(self)@ }),
    {
        self.last_seen = timestamp;
    }

    /// The peer's id.
    pub fn id(&self) -> (r: &PeerId)
        ensures
            *r == self.spec_id(),
            r@ == self@.id,
    {
        &self.id
    }

    /// Whether the peer is a relay.
    pub fn is_relay(&self) -> (r: bool)
        ensures
            r == self@.is_relay,
    {
        self.is_relay
    }

    /// Marks or unmarks the peer as a relay.
    pub fn set_relay(&mut self, relay: bool)
        ensures
            final(self).spec_id() == old(self).spec_id(),
            final(self)@ == (SpecPeer { is_relay: relay, ..old(self)@ }),
    {
        self.is_relay = relay;
    }

    /// The peer's addresses, in the order they were added.
    pub fn addrs(&self) -> (r: &[SocketAddr])
        ensures
            r@ == self@.addrs,
    {
        self.addrs.as_slice()
    }

    /// Encodes the peer. The address count is one byte: with more than 255
    /// addresses it wraps, as the format has no room for more.
    pub fn to_bytes(&self) -> (r: Vec<u8>)
        ensures
            r@ == spec_peer_bytes(self@),
    {
        let mut buf: Vec<u8> = Vec::new();
        let id = self.id.as_bytes();
        let mut k: usize = 0;
        while k < 32
            invariant
                k <= 32,
                id@.len() == 32,
                buf@ == id@.subrange(0, k as int),
            decreases 32 - k,
        {
            buf.push(id[k]);
            k = k + 1;
            assert(buf@ =~= id@.subrange(0, k as int));
        }
        assert(id@.subrange(0, 32) =~= id@);
        buf.push(self.addrs.len() as u8);
        let ghost head = buf@;
        let n = self.addrs.len();
        let mut i: usize = 0;
        while i < n
            invariant
                n == self.addrs@.len(),
                i <= n,
                buf@ == head + spec_addrs_bytes(self.addrs@.subrange(0, i as int)),
            decreases n - i,
        {
            push_addr(&mut buf, self.addrs[i]);
            i = i + 1;
            assert(self.addrs@.subrange(0, i as int).drop_last() =~= self.addrs@.subrange(0, i - 1));
            assert(buf@ =~= head + spec_addrs_bytes(self.addrs@.subrange(0, i as int)));
        }
        assert(self.addrs@.subrange(0, n as int) =~= self.addrs@);
        push_be64(&mut buf, self.last_seen);
        buf.push(if self.is_relay { 1u8 } else { 0u8 });
        push_be32(&mut buf, self.reputation);
        assert(buf@ =~= spec_peer_bytes(self@));
        buf
    }

    /// Decodes a peer. The id bytes, where there are 32 of them, must be a valid key.
    pub fn from_bytes(data: &[u8]) -> (r: Result<Self, PeerDecodeError>)
        requires
            data@.len() >= 32 ==> is_endpoint_key(data@.subrange(0, 32)),
        ensures
            spec_peer_from_bytes(data@) == (match r {
                Ok(p) => Ok(p@),
                Err(e) => Err(e),
            }),
    {
        let n = data.len();
        if n < 32 {
            return Err(PeerDecodeError::TooShortForId);
        }
        let id = PeerId::from_public_key(data);
        if n < 33 {
            return Err(PeerDecodeError::TooShortForAddrCount);
        }
        let addr_count = data[32];
        let mut pos: usize = 33;
        let mut addrs: Vec<SocketAddr> = Vec::new();
        let mut k: u8 = 0;
        while k < addr_count
            invariant
                n == data@.len(),
                n >= 33,
                id@ == data@.subrange(0, 32),
                k <= addr_count,
                addr_count == data@[32],
                pos <= n,
                spec_parse_addrs(data@, 33, k as nat) == Ok::<(Seq<SocketAddr>, int), PeerDecodeError>(
                    (addrs@, pos as int),
                ),
            decreases addr_count - k,
        {
            match parse_addr(data, pos) {
                Ok((a, q)) => {
                    addrs.push(a);
                    pos = q;
                    k = k + 1;
                },
                Err(e) => {
                    proof {
                        lemma_parse_addrs_err(data@, 33, (k + 1) as nat, addr_count as nat);
                    }
                    return Err(e);
                },
            }
        }
        if n - pos < 8 {
            return Err(PeerDecodeError::TooShortForTimestamp);
        }
        let last_seen = read_be64(data, pos);
        pos = pos + 8;
        if n - pos < 1 {
            return Err(PeerDecodeError::TooShortForRelayFlag);
        }
        let is_relay = data[pos] != 0;
        pos = pos + 1;
        if n - pos < 4 {
            return Err(PeerDecodeError::TooShortForReputation);
        }
        let reputation = read_be32(data, pos);
        Ok(Peer { id, addrs, last_seen, is_relay, reputation })
    }

    /// Decodes a peer, checking that the id is a valid key: where there are 32
    /// id bytes that are no valid key, the result is `InvalidId`; otherwise it is
    /// what [`Peer::from_bytes`] gives.
    pub fn decode(data: &[u8]) -> (r: Result<Self, PeerDecodeError>)
        ensures
            (data@.len() >= 32 && !is_endpoint_key(data@.subrange(0, 32))) ==> r == Err::<
                Self,
                PeerDecodeError,
            >(PeerDecodeError::InvalidId),
            !(data@.len() >= 32 && !is_endpoint_key(data@.subrange(0, 32))) ==> spec_peer_from_bytes(
                data@,
            ) == (match r {
                Ok(p) => Ok(p@),
                Err(e) => Err(e),
            }),
    {
        if data.len() >= 32 {
            let mut bytes = [0u8; 32];
            let mut i: usize = 0;
            while i < 32
                invariant
                    i <= 32,
                    data@.len() >= 32,
                    forall|j: int| 0 <= j < i ==> bytes@[j] == data@[j],
                decreases 32 - i,
            {
                bytes[i] = data[i];
                i = i + 1;
            }
            assert(bytes@ =~= data@.subrange(0, 32));
            if PeerId::from_bytes(bytes).is_err() {
                return Err(PeerDecodeError::InvalidId);
            }
        }
        Self::from_bytes(data)
    }

    /// The peer's reputation.
    pub fn reputation(&self) -> (r: u32)
        ensures
            r == self@.reputation,
    {
        self.reputation
    }

    /// The time at which the peer was last seen.
    pub fn last_seen(&self) -> (r: u64)
        ensures
            r == self@.last_seen,
    {
        self.last_seen
    }
}

} // verus!
