//! The text form of socket addresses: `a.b.c.d:port` for IPv4 and
//! `[segments]:port` for IPv6, the IPv6 address in the canonical form of
//! RFC 5952 (lowercase hex without leading zeros, the longest run of two or
//! more zero segments, the first of equal ones, written `::`, and IPv4-mapped
//! addresses as `::ffff:a.b.c.d`).

use vstd::prelude::*;
use crate::network::addr::{IpAddr, SocketAddr};
use crate::text::{decimal, hex_digit, push_char, push_decimal, spec_hex_digit};

verus! {

/// Lowercase hexadecimal digits of a number, without leading zeros.
pub open spec fn hex_number(n: nat) -> Seq<char>
    decreases n,
{
    if n < 16 {
        seq![spec_hex_digit(n as int)]
    } else {
        hex_number(n / 16).push(spec_hex_digit((n % 16) as int))
    }
}

/// Dotted decimal text of an IPv4 address given as the big-endian number of its octets.
pub open spec fn ipv4_text(bits: u32) -> Seq<char> {
    decimal(((bits >> 24u32) as u8) as nat) + seq!['.'] + decimal(((bits >> 16u32) as u8) as nat)
        + seq!['.'] + decimal(((bits >> 8u32) as u8) as nat) + seq!['.'] + decimal(
        (bits as u8) as nat,
    )
}

/// The eight 16-bit segments of an IPv6 address, most significant first.
pub open spec fn segments(bits: u128) -> Seq<u16> {
    Seq::new(8, |k: int| (bits >> ((112 - 16 * k) as u128)) as u16)
}

/// Segments joined by `:`, each in lowercase hex without leading zeros.
pub open spec fn join_hex(s: Seq<u16>) -> Seq<char>
    decreases s.len(),
{
    if s.len() == 0 {
        seq![]
    } else if s.len() == 1 {
        hex_number(s[0] as nat)
    } else {
        join_hex(s.drop_last()) + seq![':'] + hex_number(s.last() as nat)
    }
}

/// Segments `start .. start + len` are all zero, and there is at least one.
pub open spec fn is_zero_run(s: Seq<u16>, start: int, len: int) -> bool {
    &&& 1 <= len
    &&& 0 <= start
    &&& start + len <= s.len()
    &&& forall|j: int| start <= j < start + len ==> s[j] == 0
}

/// The run that the text compresses to `::`: at least two zero segments, no
/// run is longer, and no run as long starts earlier.
pub open spec fn is_compressed_run(s: Seq<u16>, start: int, len: int) -> bool {
    &&& 2 <= len
    &&& is_zero_run(s, start, len)
    &&& forall|st: int, l: int|
        #[trigger] is_zero_run(s, st, l) ==> l < len || (l == len && start <= st)
}

/// Whether the address is IPv4-mapped (`::ffff:0:0/96`).
pub open spec fn is_ipv4_mapped(bits: u128) -> bool {
    bits >> 32u128 == 0xffffu128
}

/// Canonical text of an IPv6 address.
pub open spec fn ipv6_text(bits: u128) -> Seq<char> {
    let s = segments(bits);
    if is_ipv4_mapped(bits) {
        seq![':', ':', 'f', 'f', 'f', 'f', ':'] + ipv4_text(bits as u32)
    } else if exists|st: int, l: int| is_compressed_run(s, st, l) {
        let (st, l) = choose|st: int, l: int| is_compressed_run(s, st, l);
        join_hex(s.subrange(0, st)) + seq![':', ':'] + join_hex(s.subrange(st + l, 8))
    } else {
        join_hex(s)
    }
}

/// Text of an IP address.
pub open spec fn ip_text(ip: IpAddr) -> Seq<char> {
    match ip {
        IpAddr::V4(bits) => ipv4_text(bits),
        IpAddr::V6(bits) => ipv6_text(bits),
    }
}

/// Text of a socket address: `a.b.c.d:port` or `[ipv6]:port`.
pub open spec fn socket_addr_text(a: SocketAddr) -> Seq<char> {
    match a.ip {
        IpAddr::V4(bits) => ipv4_text(bits) + seq![':'] + decimal(a.port as nat),
        IpAddr::V6(bits) => seq!['['] + ipv6_text(bits) + seq![']', ':'] + decimal(a.port as nat),
    }
}

/// Appends the lowercase hexadecimal digits of a number.
fn push_hex(s: &mut String, n: u16)
    ensures
        final(s)@ == old(s)@ + hex_number(n as nat),
    decreases n,
{
    if n >= 16 {
        push_hex(s, n / 16);
    }
    push_char(s, hex_digit((n % 16) as u8));
    assert(s@ =~= old(s)@ + hex_number(n as nat));
}

/// Appends the dotted decimal text of an IPv4 address.
fn push_ipv4(s: &mut String, bits: u32)
    ensures
        final(s)@ == old(s)@ + ipv4_text(bits),
{
    let ghost start = s@;
    push_decimal(s, ((bits >> 24u32) as u8) as u64);
    push_char(s, '.');
    push_decimal(s, ((bits >> 16u32) as u8) as u64);
    push_char(s, '.');
    push_decimal(s, ((bits >> 8u32) as u8) as u64);
    push_char(s, '.');
    push_decimal(s, (bits as u8) as u64);
    assert(s@ =~= start + ipv4_text(bits));
}


/// Appends the segments `from .. to`, joined by `:`, in lowercase hex.
fn push_join_hex(s: &mut String, segs: &Vec<u16>, from: usize, to: usize)
    requires
        from <= to <= segs@.len(),
    ensures
        final(s)@ == old(s)@ + join_hex(segs@.subrange(from as int, to as int)),
{
    let ghost start = s@;
    let mut k: usize = from;
    assert(join_hex(segs@.subrange(from as int, from as int)) =~= seq![]);
    assert(s@ =~= start + seq![]);
    while k < to
        invariant
            from <= k <= to,
            to <= segs@.len(),
            s@ == start + join_hex(segs@.subrange(from as int, k as int)),
        decreases to - k,
    {
        let ghost before = s@;
        if k > from {
            push_char(s, ':');
        }
        push_hex(s, segs[k]);
        proof {
            let sub = segs@.subrange(from as int, k + 1);
            assert(sub.drop_last() =~= segs@.subrange(from as int, k as int));
            assert(sub.last() == segs@[k as int]);
            if k == from {
                assert(join_hex(segs@.subrange(from as int, k as int)) =~= seq![]);
            }
            assert(s@ =~= start + join_hex(sub));
        }
        k = k + 1;
    }
}

/// The eight segments of an IPv6 address.
fn segments_of(bits: u128) -> (r: Vec<u16>)
    ensures
        r@ == segments(bits),
{
    let mut r: Vec<u16> = Vec::new();
    let mut k: usize = 0;
    while k < 8
        invariant
            k <= 8,
            r@.len() == k,
            forall|j: int| 0 <= j < k ==> r@[j] == segments(bits)[j],
        decreases 8 - k,
    {
        let shift: u128 = (112 - 16 * k) as u128;
        r.push((bits >> shift) as u16);
        k = k + 1;
    }
    assert(r@ =~= segments(bits));
    r
}

/// At most one run is the compressed one.
proof fn lemma_compressed_run_unique(s: Seq<u16>, st1: int, l1: int, st2: int, l2: int)
    requires
        is_compressed_run(s, st1, l1),
        is_compressed_run(s, st2, l2),
    ensures
        st1 == st2,
        l1 == l2,
{
    assert(is_zero_run(s, st1, l1));
    assert(is_zero_run(s, st2, l2));
}

/// Finds the run of zero segments that the text compresses: its start and
/// length, or a length below two where there is none.
fn find_compressed_run(s: &Vec<u16>) -> (r: (usize, usize))
    requires
        s@.len() == 8,
    ensures
        r.1 >= 2 ==> is_compressed_run(s@, r.0 as int, r.1 as int),
        r.1 < 2 ==> !exists|st: int, l: int| is_compressed_run(s@, st, l),
{
    let mut best_start: usize = 0;
    let mut best_len: usize = 0;
    let mut cur_start: usize = 0;
    let mut cur_len: usize = 0;
    let mut i: usize = 0;
    while i < 8
        invariant
            s@.len() == 8,
            i <= 8,
            cur_start + cur_len == i,
            forall|j: int| cur_start <= j < i ==> s@[j] == 0,
            cur_start > 0 ==> s@[cur_start - 1] != 0,
            best_len <= i,
            best_len > 0 ==> is_zero_run(s@, best_start as int, best_len as int) && best_start
                + best_len <= i,
            forall|st: int, l: int|
                #[trigger] is_zero_run(s@, st, l) && st + l <= i ==> l < best_len || (l == best_len
                    && best_start <= st),
        decreases 8 - i,
    {
        let ghost old_bs = best_start as int;
        let ghost old_bl = best_len as int;
        if s[i] == 0 {
            if cur_len == 0 {
                cur_start = i;
            }
            cur_len = cur_len + 1;
            if cur_len > best_len {
                best_start = cur_start;
                best_len = cur_len;
            }
        } else {
            cur_start = i + 1;
            cur_len = 0;
        }
        proof {
            assert forall|st: int, l: int| #[trigger]
                is_zero_run(s@, st, l) && st + l <= i + 1 implies l < best_len || (l == best_len
                && best_start <= st) by {
                if st + l <= i {
                    assert(l < old_bl || (l == old_bl && old_bs <= st));
                } else {
                    assert(s@[i as int] == 0);
                    if st < cur_start {
                        assert(s@[cur_start - 1] == 0);
                    }
                    assert(st >= cur_start);
                    if old_bl > 0 && best_len == old_bl && l == best_len && best_start > st {
                        assert(s@[old_bs] == 0);
                    }
                }
            }
        }
        i = i + 1;
    }
    if best_len < 2 {
        assert forall|st: int, l: int| !is_compressed_run(s@, st, l) by {
            if is_compressed_run(s@, st, l) {
                assert(is_zero_run(s@, st, l));
            }
        }
    }
    (best_start, best_len)
}

/// Appends the canonical text of an IPv6 address.
fn push_ipv6(s: &mut String, bits: u128)
    ensures
        final(s)@ == old(s)@ + ipv6_text(bits),
{
    let ghost start = s@;
    if bits >> 32u128 == 0xffffu128 {
        push_char(s, ':');
        push_char(s, ':');
        push_char(s, 'f');
        push_char(s, 'f');
        push_char(s, 'f');
        push_char(s, 'f');
        push_char(s, ':');
        push_ipv4(s, bits as u32);
        assert(s@ =~= start + ipv6_text(bits));
    } else {
        let segs = segments_of(bits);
        let (st, len) = find_compressed_run(&segs);
        if len >= 2 {
            push_join_hex(s, &segs, 0, st);
            push_char(s, ':');
            push_char(s, ':');
            push_join_hex(s, &segs, st + len, 8);
            proof {
                let (cst, cl) = choose|a: int, b: int| is_compressed_run(segs@, a, b);
                lemma_compressed_run_unique(segs@, st as int, len as int, cst, cl);
            }
            assert(s@ =~= start + ipv6_text(bits));
        } else {
            push_join_hex(s, &segs, 0, 8);
            assert(segs@.subrange(0, 8) =~= segs@);
            assert(s@ =~= start + ipv6_text(bits));
        }
    }
}

impl IpAddr {
    /// The text of the address: dotted decimal for IPv4, the canonical form
    /// of RFC 5952 for IPv6.
    pub fn to_string(&self) -> (r: String)
        ensures
            r@ == ip_text(*self),
    {
        let mut r = String::new();
        match *self {
            IpAddr::V4(bits) => push_ipv4(&mut r, bits),
            IpAddr::V6(bits) => push_ipv6(&mut r, bits),
        }
        assert(r@ =~= ip_text(*self));
        r
    }
}

impl SocketAddr {
    /// The text of the socket address: `a.b.c.d:port` or `[ipv6]:port`.
    pub fn to_string(&self) -> (r: String)
        ensures
            r@ == socket_addr_text(*self),
    {
        let mut r = String::new();
        match self.ip {
            IpAddr::V4(bits) => {
                push_ipv4(&mut r, bits);
            },
            IpAddr::V6(bits) => {
                push_char(&mut r, '[');
                push_ipv6(&mut r, bits);
                push_char(&mut r, ']');
            },
        }
        push_char(&mut r, ':');
        push_decimal(&mut r, self.port as u64);
        assert(r@ =~= socket_addr_text(*self));
        r
    }
}

} // verus!
