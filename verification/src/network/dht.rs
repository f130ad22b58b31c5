//! Kademlia-style routing: XOR distance, its order, and the routing table of
//! 256 k-buckets.

use vstd::prelude::*;
use vstd::arithmetic::div_mod::lemma_fundamental_div_mod_converse;
use vstd::std_specs::bits::{u8_leading_zeros, axiom_u8_leading_zeros};
use crate::network::kbucket::{
    InsertResult, KBucket, SpecKBucket, kbucket_wf, spec_kbucket_insert, lemma_kbucket_insert_wf,
};
use crate::network::peer::{Peer, SpecPeer, lemma_peer_view_id_len};
use crate::protocol::peer_id::PeerId;
use vstd::std_specs::iter::IteratorSpec;

verus! {

/// Byte-wise XOR of two byte strings of the same length.
pub open spec fn xor_seq(a: Seq<u8>, b: Seq<u8>) -> Seq<u8> {
    Seq::new(a.len(), |i: int| a[i] ^ b[i])
}

/// The number that a byte string stands for, read big-endian. On strings of one
/// length, its order is the lexicographic order of the bytes.
pub open spec fn be_num(s: Seq<u8>) -> nat
    decreases s.len(),
{
    if s.len() == 0 {
        0
    } else {
        be_num(s.drop_last()) * 256 + s.last() as nat
    }
}

/// The XOR distance of a peer id from a target, as a number.
pub open spec fn distance(id: Seq<u8>, target: Seq<u8>) -> nat {
    be_num(xor_seq(id, target))
}

/// XOR distance between two 32-byte arrays.
pub fn xor_distance(a: &[u8; 32], b: &[u8; 32]) -> (r: [u8; 32])
    ensures
        r@ == xor_seq(a@, b@),
{
    let mut result = [0u8; 32];
    let mut i: usize = 0;
    while i < 32
        invariant
            i <= 32,
            a@.len() == 32,
            forall|j: int| 0 <= j < i ==> result@[j] == a@[j] ^ b@[j],
        decreases 32 - i,
    {
        result[i] = a[i] ^ b[i];
        i = i + 1;
    }
    assert(result@ =~= xor_seq(a@, b@));
    result
}

/// XOR distance is a metric of Kademlia: symmetric, zero from itself, and zero
/// only between equal ids.
pub proof fn law_xor_distance_metric(a: Seq<u8>, b: Seq<u8>)
    requires
        a.len() == b.len(),
    ensures
        distance(a, b) == distance(b, a),
        distance(a, a) == 0,
        distance(a, b) == 0 ==> a == b,
{
    assert forall|i: int| 0 <= i < a.len() implies xor_seq(a, b)[i] == xor_seq(b, a)[i] by {
        let x = a[i];
        let y = b[i];
        assert(x ^ y == y ^ x) by (bit_vector);
    }
    assert(xor_seq(a, b) =~= xor_seq(b, a));
    let z = Seq::new(a.len(), |i: int| 0u8);
    assert forall|i: int| 0 <= i < a.len() implies xor_seq(a, a)[i] == z[i] by {
        let x = a[i];
        assert(x ^ x == 0) by (bit_vector);
    }
    assert(xor_seq(a, a) =~= z);
    lemma_be_num_zeros(z);
    if distance(a, b) == 0 {
        assert(distance(b, a) == distance(a, a));
        lemma_distance_injective(b, a, a);
    }
}

/// The number of a string of zero bytes is zero.
proof fn lemma_be_num_zeros(z: Seq<u8>)
    requires
        forall|i: int| 0 <= i < z.len() ==> z[i] == 0,
    ensures
        be_num(z) == 0,
    decreases z.len(),
{
    if z.len() > 0 {
        lemma_be_num_zeros(z.drop_last());
    }
}

/// Byte strings of one length with the same number are equal.
pub proof fn lemma_be_num_injective(a: Seq<u8>, b: Seq<u8>)
    requires
        a.len() == b.len(),
        be_num(a) == be_num(b),
    ensures
        a == b,
    decreases a.len(),
{
    if a.len() > 0 {
        lemma_fundamental_div_mod_converse(be_num(a) as int, 256, be_num(a.drop_last()) as int, a.last() as int);
        lemma_fundamental_div_mod_converse(be_num(b) as int, 256, be_num(b.drop_last()) as int, b.last() as int);
        lemma_be_num_injective(a.drop_last(), b.drop_last());
        assert(a =~= a.drop_last().push(a.last()));
        assert(b =~= b.drop_last().push(b.last()));
    } else {
        assert(a =~= b);
    }
}

/// Two prefixes that are ordered stay ordered when both grow by one byte.
proof fn lemma_be_num_extend(a: Seq<u8>, b: Seq<u8>, m: int)
    requires
        0 < m < a.len(),
        a.len() == b.len(),
        be_num(a.take(m)) < be_num(b.take(m)),
    ensures
        be_num(a.take(m + 1)) < be_num(b.take(m + 1)),
{
    assert(a.take(m + 1).drop_last() =~= a.take(m));
    assert(b.take(m + 1).drop_last() =~= b.take(m));
}

/// Prefixes longer than the first difference keep the order of the differing byte.
proof fn lemma_be_num_prefixes(a: Seq<u8>, b: Seq<u8>, i: int, m: int)
    requires
        a.len() == b.len(),
        0 <= i < m <= a.len(),
        a.take(i) == b.take(i),
        a[i] < b[i],
    ensures
        be_num(a.take(m)) < be_num(b.take(m)),
    decreases m,
{
    if m == i + 1 {
        assert(a.take(i + 1).drop_last() =~= a.take(i));
        assert(b.take(i + 1).drop_last() =~= b.take(i));
    } else {
        lemma_be_num_prefixes(a, b, i, m - 1);
        lemma_be_num_extend(a, b, m - 1);
    }
}

/// Where two byte strings of one length first differ decides their order.
pub proof fn lemma_be_num_first_difference(a: Seq<u8>, b: Seq<u8>, i: int)
    requires
        a.len() == b.len(),
        0 <= i < a.len(),
        a.take(i) == b.take(i),
        a[i] < b[i],
    ensures
        be_num(a) < be_num(b),
{
    lemma_be_num_prefixes(a, b, i, a.len() as int);
    assert(a.take(a.len() as int) =~= a);
    assert(b.take(b.len() as int) =~= b);
}

/// Whether `a` is strictly smaller than `b` as a big-endian number.
pub fn num_lt(a: &[u8; 32], b: &[u8; 32]) -> (r: bool)
    ensures
        r == (be_num(a@) < be_num(b@)),
{
    let mut i: usize = 0;
    while i < 32
        invariant
            i <= 32,
            a@.len() == 32,
            b@.len() == 32,
            a@.take(i as int) == b@.take(i as int),
        decreases 32 - i,
    {
        if a[i] < b[i] {
            proof {
                lemma_be_num_first_difference(a@, b@, i as int);
            }
            return true;
        }
        if a[i] > b[i] {
            proof {
                lemma_be_num_first_difference(b@, a@, i as int);
            }
            return false;
        }
        i = i + 1;
        assert(a@.take(i as int) =~= b@.take(i as int));
    }
    assert(a@ =~= a@.take(32));
    assert(b@ =~= b@.take(32));
    false
}

/// Different ids are at different distances from any target.
pub proof fn lemma_distance_injective(x: Seq<u8>, y: Seq<u8>, t: Seq<u8>)
    requires
        x.len() == y.len(),
        x.len() == t.len(),
        distance(x, t) == distance(y, t),
    ensures
        x == y,
{
    lemma_be_num_injective(xor_seq(x, t), xor_seq(y, t));
    assert forall|i: int| 0 <= i < x.len() implies x[i] == y[i] by {
        let a = x[i];
        let b = y[i];
        let c = t[i];
        assert(xor_seq(x, t)[i] == xor_seq(y, t)[i]);
        assert((a ^ c) == (b ^ c) ==> a == b) by (bit_vector);
    }
    assert(x =~= y);
}

/// The XOR distance between a peer's id and a target, as a number to compare.
pub fn peer_distance(p: &Peer, target: &[u8; 32]) -> (r: [u8; 32])
    ensures
        r@ == xor_seq(p@.id, target@),
        be_num(r@) == distance(p@.id, target@),
{
    xor_distance(p.id().as_bytes(), target)
}

/// No two peers of a list share an id.
pub open spec fn distinct_peer_ids(s: Seq<SpecPeer>) -> bool {
    forall|i: int, j: int|
        0 <= i < s.len() && 0 <= j < s.len() && i != j ==> #[trigger] s[i].id != #[trigger] s[j].id
}

/// `out` is the list of the `k` peers of `all` closest to `target`, closest first:
/// it has `min(k, |all|)` peers of `all`, in strictly increasing distance, and
/// every peer of `all` left out is farther than all of them.
pub open spec fn is_k_closest(all: Seq<SpecPeer>, target: Seq<u8>, k: nat, out: Seq<SpecPeer>) -> bool {
    &&& out.len() == if k < all.len() {
        k
    } else {
        all.len()
    }
    &&& forall|i: int| 0 <= i < out.len() ==> all.contains(#[trigger] out[i])
    &&& forall|i: int, j: int|
        0 <= i < j < out.len() ==> distance(#[trigger] out[i].id, target) < distance(
            #[trigger] out[j].id,
            target,
        )
    &&& forall|j: int|
        0 <= j < all.len() ==> out.contains(#[trigger] all[j]) || (forall|i: int|
            0 <= i < out.len() ==> distance(#[trigger] out[i].id, target) < distance(all[j].id, target))
}

/// Peers in strictly increasing distance from the target.
pub open spec fn sorted_by_distance(s: Seq<SpecPeer>, target: Seq<u8>) -> bool {
    forall|a: int, b: int|
        0 <= a < b < s.len() ==> distance(#[trigger] s[a].id, target) < distance(#[trigger] s[b].id, target)
}

/// `s` holds exactly the first `i` peers of `all`: entry `t` is peer `idx[t]`,
/// and peer `q` stands at entry `pos[q]`.
pub open spec fn holds_prefix(s: Seq<SpecPeer>, all: Seq<SpecPeer>, i: int, idx: Seq<int>, pos: Seq<int>) -> bool {
    &&& s.len() == i
    &&& idx.len() == i
    &&& pos.len() == i
    &&& forall|t: int| 0 <= t < i ==> 0 <= #[trigger] idx[t] < i && all[idx[t]] == s[t]
    &&& forall|q: int| 0 <= q < i ==> 0 <= #[trigger] pos[q] < i && s[pos[q]] == all[q]
}

/// Inserting the next peer at its place keeps the list sorted and holding the prefix.
proof fn lemma_insert_in_order(
    before: Seq<SpecPeer>,
    all: Seq<SpecPeer>,
    i: int,
    p: int,
    target: Seq<u8>,
    idx: Seq<int>,
    pos: Seq<int>,
)
    requires
        0 <= i < all.len(),
        distinct_peer_ids(all),
        forall|q: int| 0 <= q < all.len() ==> (#[trigger] all[q]).id.len() == target.len(),
        sorted_by_distance(before, target),
        holds_prefix(before, all, i, idx, pos),
        0 <= p <= before.len(),
        forall|t: int| 0 <= t < p ==> distance((#[trigger] before[t]).id, target) < distance(all[i].id, target),
        p < before.len() ==> !(distance(before[p].id, target) < distance(all[i].id, target)),
    ensures
        sorted_by_distance(before.insert(p, all[i]), target),
        holds_prefix(
            before.insert(p, all[i]),
            all,
            i + 1,
            idx.insert(p, i),
            pos.map_values(|x: int| if x >= p { x + 1 } else { x }).push(p),
        ),
{
    let c = all[i];
    let after = before.insert(p, c);
    if p < before.len() {
        let q = idx[p];
        assert(all[q] == before[p]);
        assert(q != i);
        assert(all[q].id != all[i].id);
        if distance(before[p].id, target) == distance(c.id, target) {
            lemma_distance_injective(before[p].id, c.id, target);
        }
    }
    assert forall|a: int, b: int|
        0 <= a < b < after.len() implies distance(#[trigger] after[a].id, target) < distance(#[trigger] after[b].id, target) by {
        if b < p {
            assert(after[a] == before[a] && after[b] == before[b]);
        } else if b == p {
            assert(after[a] == before[a]);
        } else if a < p {
            assert(after[a] == before[a] && after[b] == before[b - 1]);
            if b - 1 > p {
                assert(distance(before[p].id, target) < distance(before[b - 1].id, target));
            }
        } else if a == p {
            assert(after[b] == before[b - 1]);
            if b - 1 > p {
                assert(distance(before[p].id, target) < distance(before[b - 1].id, target));
            }
        } else {
            assert(after[a] == before[a - 1] && after[b] == before[b - 1]);
        }
    }
    let idx2 = idx.insert(p, i);
    let pos2 = pos.map_values(|x: int| if x >= p { x + 1 } else { x }).push(p);
    assert forall|t: int| 0 <= t < i + 1 implies 0 <= #[trigger] idx2[t] < i + 1 && all[idx2[t]] == after[t] by {
        if t < p {
            assert(idx2[t] == idx[t] && after[t] == before[t]);
        } else if t > p {
            assert(idx2[t] == idx[t - 1] && after[t] == before[t - 1]);
        }
    }
    assert forall|q: int| 0 <= q < i + 1 implies 0 <= #[trigger] pos2[q] < i + 1 && after[pos2[q]] == all[q] by {
        if q < i {
            let x = pos[q];
            if x >= p {
                assert(pos2[q] == x + 1);
                assert(after[x + 1] == before[x]);
            } else {
                assert(pos2[q] == x);
                assert(after[x] == before[x]);
            }
        }
    }
}

/// The first `m` entries of a sorted list holding all peers are the `m` closest.
proof fn lemma_prefix_is_closest(sorted: Seq<SpecPeer>, all: Seq<SpecPeer>, k: nat, target: Seq<u8>, idx: Seq<int>, pos: Seq<int>)
    requires
        sorted_by_distance(sorted, target),
        holds_prefix(sorted, all, all.len() as int, idx, pos),
    ensures
        is_k_closest(all, target, k, sorted.take(if k < all.len() { k as int } else { all.len() as int })),
{
    let m = if k < all.len() { k as int } else { all.len() as int };
    let out = sorted.take(m);
    assert forall|x: int| 0 <= x < out.len() implies all.contains(#[trigger] out[x]) by {
        assert(out[x] == sorted[x]);
        assert(all[idx[x]] == sorted[x]);
    }
    assert forall|a: int, b: int|
        0 <= a < b < out.len() implies distance(#[trigger] out[a].id, target) < distance(#[trigger] out[b].id, target) by {
        assert(out[a] == sorted[a] && out[b] == sorted[b]);
    }
    assert forall|j: int| 0 <= j < all.len() implies out.contains(#[trigger] all[j]) || (forall|x: int|
        0 <= x < out.len() ==> distance(#[trigger] out[x].id, target) < distance(all[j].id, target)) by {
        let t = pos[j];
        assert(sorted[t] == all[j]);
        if t < m {
            assert(out[t] == all[j]);
        } else {
            assert forall|x: int| 0 <= x < out.len() implies distance(#[trigger] out[x].id, target) < distance(all[j].id, target) by {
                assert(out[x] == sorted[x]);
            }
        }
    }
}

/// Sorts peers by distance from the target and keeps the `k` closest.
pub fn select_closest<'a>(cands: &Vec<&'a Peer>, target: &[u8; 32], k: usize) -> (r: Vec<&'a Peer>)
    requires
        distinct_peer_ids(cands@.map_values(|p: &Peer| p@)),
        forall|i: int| 0 <= i < cands@.len() ==> (#[trigger] cands@[i])@.id.len() == 32,
    ensures
        is_k_closest(cands@.map_values(|p: &Peer| p@), target@, k as nat, r@.map_values(|p: &Peer| p@)),
{
    let ghost all = cands@.map_values(|p: &Peer| p@);
    let n = cands.len();
    let mut sorted: Vec<&'a Peer> = Vec::new();
    let mut i: usize = 0;
    let ghost mut idx: Seq<int> = seq![];
    let ghost mut pos: Seq<int> = seq![];
    assert(sorted@.map_values(|p: &Peer| p@) =~= Seq::<SpecPeer>::empty());
    assert forall|q: int| 0 <= q < all.len() implies (#[trigger] all[q]).id.len() == 32 by {
        assert(all[q] == cands@[q]@);
    }
    while i < n
        invariant
            n == cands@.len(),
            all == cands@.map_values(|p: &Peer| p@),
            distinct_peer_ids(all),
            forall|q: int| 0 <= q < all.len() ==> (#[trigger] all[q]).id.len() == 32,
            i <= n,
            sorted_by_distance(sorted@.map_values(|p: &Peer| p@), target@),
            holds_prefix(sorted@.map_values(|p: &Peer| p@), all, i as int, idx, pos),
        decreases n - i,
    {
        let ghost before = sorted@.map_values(|p: &Peer| p@);
        let c = cands[i];
        assert(c@ == all[i as int]);
        let dc = peer_distance(c, target);
        let mut p: usize = 0;
        while p < sorted.len()
            invariant
                p <= sorted@.len(),
                before == sorted@.map_values(|p: &Peer| p@),
                be_num(dc@) == distance(c@.id, target@),
                forall|t: int| 0 <= t < p ==> distance((#[trigger] before[t]).id, target@) < distance(c@.id, target@),
            ensures
                p <= sorted@.len(),
                forall|t: int| 0 <= t < p ==> distance((#[trigger] before[t]).id, target@) < distance(c@.id, target@),
                p < sorted@.len() ==> !(distance(before[p as int].id, target@) < distance(c@.id, target@)),
            decreases sorted@.len() - p,
        {
            let dp = peer_distance(sorted[p], target);
            assert(sorted@[p as int]@ == before[p as int]);
            if !num_lt(&dp, &dc) {
                break;
            }
            p = p + 1;
        }
        proof {
            if p < before.len() {
                assert(sorted@[p as int]@ == before[p as int]);
            }
            lemma_insert_in_order(before, all, i as int, p as int, target@, idx, pos);
            idx = idx.insert(p as int, i as int);
            pos = pos.map_values(|x: int| if x >= p { x + 1 } else { x }).push(p as int);
        }
        sorted.insert(p, c);
        assert(sorted@.map_values(|p: &Peer| p@) =~= before.insert(p as int, all[i as int]));
        i = i + 1;
    }
    let m = if k < n { k } else { n };
    let mut r: Vec<&'a Peer> = Vec::new();
    let mut t: usize = 0;
    while t < m
        invariant
            m <= n,
            n == sorted@.len(),
            t <= m,
            r@ == sorted@.subrange(0, t as int),
        decreases m - t,
    {
        r.push(sorted[t]);
        t = t + 1;
        assert(r@ =~= sorted@.subrange(0, t as int));
    }
    proof {
        let sv = sorted@.map_values(|p: &Peer| p@);
        lemma_prefix_is_closest(sv, all, k as nat, target@, idx, pos);
        assert(r@.map_values(|p: &Peer| p@) =~= sv.take(m as int));
    }
    r
}

/// Number of buckets of a routing table.
pub const BUCKET_COUNT: usize = 256;

/// Size of each bucket (Kademlia's k).
pub const BUCKET_SIZE: usize = 20;

/// The bucket of a peer, scanning from byte `i`: eight times the index of the
/// first differing byte plus the leading zero bits of their XOR; 255 for equal ids.
pub open spec fn bucket_index_from(local: Seq<u8>, peer: Seq<u8>, i: int) -> int
    decreases 32 - i,
{
    if i >= 32 {
        255
    } else if local[i] != peer[i] {
        i * 8 + u8_leading_zeros(local[i] ^ peer[i]) as int
    } else {
        bucket_index_from(local, peer, i + 1)
    }
}

/// The bucket of a peer: the position of the highest bit in which its id differs
/// from the local id; 255 for identical ids.
pub open spec fn spec_bucket_index(local: Seq<u8>, peer: Seq<u8>) -> int {
    bucket_index_from(local, peer, 0)
}

/// The bucket of two ids does not depend on which one is the local id, and an
/// id falls into the last bucket against itself.
pub proof fn law_bucket_index_symmetric(a: Seq<u8>, b: Seq<u8>)
    requires
        a.len() == 32,
        b.len() == 32,
    ensures
        spec_bucket_index(a, b) == spec_bucket_index(b, a),
        spec_bucket_index(a, a) == 255,
        0 <= spec_bucket_index(a, b) < 256,
{
    lemma_bucket_index_from(a, b, 0);
}

/// The bucket of two different ids is the position of the highest bit in
/// which they differ, counting from the most significant bit of byte 0: all
/// bytes before byte `r / 8` agree, and in byte `r / 8` the bits above bit
/// `r % 8` agree while that bit differs.
pub proof fn law_bucket_index_is_first_differing_bit(a: Seq<u8>, b: Seq<u8>)
    requires
        a.len() == 32,
        b.len() == 32,
        a != b,
    ensures
        ({
            let r = spec_bucket_index(a, b);
            &&& 0 <= r < 256
            &&& forall|j: int| 0 <= j < r / 8 ==> a[j] == b[j]
            &&& (a[r / 8] ^ b[r / 8]) >> ((7 - r % 8) as u8) == 1u8
        }),
{
    lemma_bucket_first_difference(a, b, 0);
}

/// Scanning from byte `i`, with all earlier bytes equal, finds the first
/// differing bit.
proof fn lemma_bucket_first_difference(a: Seq<u8>, b: Seq<u8>, i: int)
    requires
        a.len() == 32,
        b.len() == 32,
        a != b,
        0 <= i <= 32,
        forall|j: int| 0 <= j < i ==> a[j] == b[j],
    ensures
        ({
            let r = bucket_index_from(a, b, i);
            &&& 8 * i <= r < 256
            &&& forall|j: int| 0 <= j < r / 8 ==> a[j] == b[j]
            &&& (a[r / 8] ^ b[r / 8]) >> ((7 - r % 8) as u8) == 1u8
        }),
    decreases 32 - i,
{
    if i == 32 {
        assert(a =~= b);
    } else if a[i] != b[i] {
        let x = a[i] ^ b[i];
        let y = a[i];
        let z = b[i];
        assert(y != z ==> y ^ z != 0) by (bit_vector);
        axiom_u8_leading_zeros(x);
        let l = u8_leading_zeros(x);
        assert(l < 8);
        let r = i * 8 + l as int;
        assert(bucket_index_from(a, b, i) == r);
        lemma_fundamental_div_mod_converse(r, 8, i, l as int);
        assert(r / 8 == i && r % 8 == l);
        let s: u8 = (7 - l) as u8;
        let t: u8 = (8 - l) as u8;
        assert(s == (7 - r % 8) as u8);
        assert((x >> s) & 1u8 != 0u8);
        assert(x >> t == 0u8);
        assert(((x >> s) & 1u8 != 0u8 && x >> t == 0u8 && s < 8u8 && t == s + 1) ==> x >> s == 1u8)
            by (bit_vector);
    } else {
        lemma_bucket_first_difference(a, b, i + 1);
    }
}

/// Scanning from byte `i` on, the bucket is the same either way round, 255 for
/// equal suffixes, and below 256.
proof fn lemma_bucket_index_from(a: Seq<u8>, b: Seq<u8>, i: int)
    requires
        a.len() == 32,
        b.len() == 32,
        0 <= i <= 32,
    ensures
        bucket_index_from(a, b, i) == bucket_index_from(b, a, i),
        bucket_index_from(a, a, i) == 255,
        0 <= bucket_index_from(a, b, i) < 256,
    decreases 32 - i,
{
    if i < 32 {
        lemma_bucket_index_from(a, b, i + 1);
        if a[i] != b[i] {
            let x = a[i];
            let y = b[i];
            assert(x ^ y == y ^ x) by (bit_vector);
            assert(x != y ==> x ^ y != 0) by (bit_vector);
            axiom_u8_leading_zeros(x ^ y);
        }
    }
}

/// The peers of all buckets, bucket by bucket.
pub open spec fn all_peers(buckets: Seq<SpecKBucket>) -> Seq<SpecPeer>
    decreases buckets.len(),
{
    if buckets.len() == 0 {
        seq![]
    } else {
        all_peers(buckets.drop_last()) + buckets.last().peers
    }
}

/// The mathematical content of a routing table.
pub struct SpecRoutingTable {
    pub local_id: Seq<u8>,
    pub buckets: Seq<SpecKBucket>,
}

/// Well-formed table: 256 well-formed buckets of size 20, each peer in the
/// bucket that its id selects.
pub open spec fn routing_table_wf(t: SpecRoutingTable) -> bool {
    &&& t.buckets.len() == 256
    &&& forall|b: int| 0 <= b < 256 ==> kbucket_wf(#[trigger] t.buckets[b])
    &&& forall|b: int| 0 <= b < 256 ==> (#[trigger] t.buckets[b]).max_size == 20
    &&& forall|b: int, j: int|
        0 <= b < 256 && 0 <= j < t.buckets[b].peers.len() ==> spec_bucket_index(
            t.local_id,
            (#[trigger] t.buckets[b].peers[j]).id,
        ) == b
}

/// Peers gathered from the first `b` buckets all belong to buckets before `b`.
proof fn lemma_all_peers_buckets(t: SpecRoutingTable, b: int)
    requires
        routing_table_wf(t),
        0 <= b <= 256,
    ensures
        forall|x: int|
            0 <= x < all_peers(t.buckets.take(b)).len() ==> spec_bucket_index(
                t.local_id,
                (#[trigger] all_peers(t.buckets.take(b))[x]).id,
            ) < b,
        forall|x: int|
            0 <= x < all_peers(t.buckets.take(b)).len() ==> (#[trigger] all_peers(t.buckets.take(b))[x]).id.len() == 32,
    decreases b,
{
    if b > 0 {
        lemma_all_peers_buckets(t, b - 1);
        let prev = all_peers(t.buckets.take(b - 1));
        assert(t.buckets.take(b).drop_last() =~= t.buckets.take(b - 1));
        assert(all_peers(t.buckets.take(b)) == prev + t.buckets[b - 1].peers);
        assert forall|x: int| 0 <= x < all_peers(t.buckets.take(b)).len() implies spec_bucket_index(
            t.local_id,
            (#[trigger] all_peers(t.buckets.take(b))[x]).id,
        ) < b && all_peers(t.buckets.take(b))[x].id.len() == 32 by {
            if x >= prev.len() {
                let j = x - prev.len();
                assert(all_peers(t.buckets.take(b))[x] == t.buckets[b - 1].peers[j]);
                assert(kbucket_wf(t.buckets[b - 1]));
            } else {
                assert(all_peers(t.buckets.take(b))[x] == prev[x]);
            }
        }
    }
}

/// Replacing one bucket changes the number of all peers by the difference of
/// the two buckets' sizes.
proof fn lemma_all_peers_update_len(bs: Seq<SpecKBucket>, i: int, nb: SpecKBucket)
    requires
        0 <= i < bs.len(),
    ensures
        all_peers(bs.update(i, nb)).len() == all_peers(bs).len() - bs[i].peers.len() + nb.peers.len(),
    decreases bs.len(),
{
    let u = bs.update(i, nb);
    if i == bs.len() - 1 {
        assert(u.drop_last() =~= bs.drop_last());
    } else {
        lemma_all_peers_update_len(bs.drop_last(), i, nb);
        assert(u.drop_last() =~= bs.drop_last().update(i, nb));
    }
}

/// Kademlia routing table with 256 k-buckets.
pub struct RoutingTable {
    local_id: PeerId,
    buckets: Vec<KBucket>,
}

impl View for RoutingTable {
    type V = SpecRoutingTable;

    closed spec fn view(&self) -> SpecRoutingTable {
        SpecRoutingTable { local_id: self.local_id@, buckets: self.buckets@.map_values(|b: KBucket| b@) }
    }
}

/// Exchanges the bucket at an index with another one.
fn swap_bucket(buckets: &mut Vec<KBucket>, idx: usize, bucket: &mut KBucket)
    requires
        idx < old(buckets)@.len(),
    ensures
        final(buckets)@ == old(buckets)@.update(idx as int, *old(bucket)),
        final(buckets)@.map_values(|b: KBucket| b@) == old(buckets)@.map_values(|b: KBucket| b@).update(
            idx as int,
            old(bucket)@,
        ),
        *final(bucket) == old(buckets)@[idx as int],
    no_unwind
{
    std::mem::swap(&mut buckets[idx], bucket);
    assert(buckets@.map_values(|b: KBucket| b@) =~= old(buckets)@.map_values(|b: KBucket| b@).update(
        idx as int,
        old(bucket)@,
    ));
}

impl RoutingTable {
    /// Every table is well-formed: 256 buckets of size 20, each peer in the
    /// bucket that its id selects.
    #[verifier::type_invariant]
    spec fn inv(self) -> bool {
        routing_table_wf(self@)
    }

    /// An empty table of 256 buckets of size 20.
    pub fn new(local_id: PeerId) -> (r: Self)
        ensures
            routing_table_wf(r@),
            r@.local_id == local_id@,
            r@.buckets.len() == 256,
            forall|b: int| 0 <= b < 256 ==> (#[trigger] r@.buckets[b]) == (SpecKBucket { peers: Seq::empty(), max_size: 20 }),
    {
        let mut buckets: Vec<KBucket> = Vec::new();
        let mut i: usize = 0;
        while i < BUCKET_COUNT
            invariant
                i <= 256,
                buckets@.len() == i,
                forall|b: int| 0 <= b < i ==> (#[trigger] buckets@[b])@ == (SpecKBucket { peers: Seq::empty(), max_size: 20 }),
            decreases 256 - i,
        {
            buckets.push(KBucket::new(BUCKET_SIZE));
            i = i + 1;
        }
        let ghost bv = buckets@.map_values(|b: KBucket| b@);
        proof {
            assert forall|b: int| 0 <= b < 256 implies #[trigger] bv[b] == (SpecKBucket { peers: Seq::empty(), max_size: 20 }) by {
                assert(bv[b] == buckets@[b]@);
            }
            assert forall|b: int| 0 <= b < 256 implies kbucket_wf(#[trigger] bv[b]) by {
                assert(bv[b].peers =~= Seq::<SpecPeer>::empty());
            }
            assert(routing_table_wf(SpecRoutingTable { local_id: local_id@, buckets: bv }));
        }
        RoutingTable { local_id, buckets }
    }

    /// The bucket of a peer: eight times the first differing byte plus the
    /// leading zero bits of their XOR; 255 for the local id itself.
    pub fn bucket_index(&self, peer_id: &PeerId) -> (r: usize)
        ensures
            routing_table_wf(self@),
            r == spec_bucket_index(self@.local_id, peer_id@),
            r < 256,
    {
        proof {
            use_type_invariant(self);
        }
        let local = self.local_id.as_bytes();
        let peer = peer_id.as_bytes();
        let mut i: usize = 0;
        while i < 32
            invariant
                routing_table_wf(self@),
                i <= 32,
                local@ == self@.local_id,
                peer@ == peer_id@,
                local@.len() == 32,
                peer@.len() == 32,
                spec_bucket_index(local@, peer@) == bucket_index_from(local@, peer@, i as int),
            decreases 32 - i,
        {
            let a = local[i];
            let b = peer[i];
            if a != b {
                let xor = a ^ b;
                let bit_pos = xor.leading_zeros();
                proof {
                    axiom_u8_leading_zeros(xor);
                    assert(a != b ==> a ^ b != 0) by (bit_vector);
                }
                return i * 8 + bit_pos as usize;
            }
            i = i + 1;
        }
        255
    }

    /// Inserts a peer into the bucket that its id selects.
    pub fn insert(&mut self, peer: Peer) -> (r: InsertResult)
        ensures
            routing_table_wf(old(self)@),
            routing_table_wf(final(self)@),
            all_peers(final(self)@.buckets).len() == all_peers(old(self)@.buckets).len() + if r
                == InsertResult::Added {
                1int
            } else {
                0int
            },
            ({
                let idx = spec_bucket_index(old(self)@.local_id, peer@.id);
                let (nb, res) = spec_kbucket_insert(old(self)@.buckets[idx], peer@);
                &&& r == res
                &&& final(self)@ == SpecRoutingTable { buckets: old(self)@.buckets.update(idx, nb), ..old(self)@ }
            }),
    {
        proof {
            use_type_invariant(&*self);
            lemma_peer_view_id_len(peer);
        }
        let ghost old_view = self@;
        let idx = self.bucket_index(peer.id());
        let ghost pv = peer@;
        let mut bucket = KBucket::new(BUCKET_SIZE);
        proof {
            let t1 = SpecRoutingTable {
                local_id: old_view.local_id,
                buckets: old_view.buckets.update(idx as int, bucket@),
            };
            assert(bucket@.peers =~= Seq::<SpecPeer>::empty());
            assert forall|b: int| 0 <= b < 256 implies kbucket_wf(#[trigger] t1.buckets[b]) && t1.buckets[b].max_size == 20 by {
                if b != idx {
                    assert(t1.buckets[b] == old_view.buckets[b]);
                }
            }
            assert forall|b: int, j: int|
                0 <= b < 256 && 0 <= j < t1.buckets[b].peers.len() implies spec_bucket_index(
                    t1.local_id,
                    (#[trigger] t1.buckets[b].peers[j]).id,
                ) == b by {
                assert(b != idx);
                assert(t1.buckets[b] == old_view.buckets[b]);
            }
            assert(routing_table_wf(t1));
        }
        swap_bucket(&mut self.buckets, idx, &mut bucket);
        assert(bucket@ == old_view.buckets[idx as int]);
        let r = bucket.insert(peer);
        let ghost nb = bucket@;
        proof {
            lemma_kbucket_insert_wf(old_view.buckets[idx as int], pv);
            let t2 = SpecRoutingTable { local_id: old_view.local_id, buckets: old_view.buckets.update(idx as int, nb) };
            assert forall|b: int, j: int|
                0 <= b < 256 && 0 <= j < t2.buckets[b].peers.len() implies spec_bucket_index(
                    t2.local_id,
                    (#[trigger] t2.buckets[b].peers[j]).id,
                ) == b by {
                if b == idx {
                    let x = nb.peers[j];
                    if x != pv {
                        let q = choose|q: int| 0 <= q < old_view.buckets[b].peers.len() && old_view.buckets[b].peers[q] == x;
                        assert(old_view.buckets[b].peers[q] == x);
                    }
                } else {
                    assert(t2.buckets[b] == old_view.buckets[b]);
                }
            }
            assert forall|b: int| 0 <= b < 256 implies kbucket_wf(#[trigger] t2.buckets[b]) && t2.buckets[b].max_size == 20 by {
                if b != idx {
                    assert(t2.buckets[b] == old_view.buckets[b]);
                }
            }
            assert(routing_table_wf(t2));
        }
        swap_bucket(&mut self.buckets, idx, &mut bucket);
        proof {
            assert(self@.buckets =~= old_view.buckets.update(idx as int, nb));
            lemma_all_peers_update_len(old_view.buckets, idx as int, nb);
        }
        r
    }

    /// The `k` peers of the table closest to the target by XOR distance, closest first.
    pub fn find_closest(&self, target: &PeerId, k: usize) -> (r: Vec<&Peer>)
        ensures
            routing_table_wf(self@),
            is_k_closest(all_peers(self@.buckets), target@, k as nat, r@.map_values(|p: &Peer| p@)),
    {
        proof {
            use_type_invariant(self);
        }
        let ghost t = self@;
        let mut cands: Vec<&Peer> = Vec::new();
        let mut b: usize = 0;
        while b < BUCKET_COUNT
            invariant
                t == self@,
                routing_table_wf(t),
                self.buckets@.len() == 256,
                t.buckets == self.buckets@.map_values(|x: KBucket| x@),
                b <= 256,
                cands@.map_values(|p: &Peer| p@) == all_peers(t.buckets.take(b as int)),
                distinct_peer_ids(cands@.map_values(|p: &Peer| p@)),
            decreases 256 - b,
        {
            proof {
                lemma_all_peers_buckets(t, b as int);
            }
            let bucket = &self.buckets[b];
            assert(bucket@ == t.buckets[b as int]);
            bucket.check_wf();
            let peers = bucket.peers();
            let n = peers.len();
            let ghost base = cands@.map_values(|p: &Peer| p@);
            let mut j: usize = 0;
            while j < n
                invariant
                    n == peers@.len(),
                    peers@.map_values(|p: Peer| p@) == t.buckets[b as int].peers,
                    kbucket_wf(t.buckets[b as int]),
                    routing_table_wf(t),
                    b < 256,
                    j <= n,
                    base == all_peers(t.buckets.take(b as int)),
                    forall|x: int| 0 <= x < base.len() ==> spec_bucket_index(t.local_id, (#[trigger] base[x]).id) < b,
                    cands@.map_values(|p: &Peer| p@) == base + t.buckets[b as int].peers.take(j as int),
                    distinct_peer_ids(cands@.map_values(|p: &Peer| p@)),
                decreases n - j,
            {
                let ghost before = cands@.map_values(|p: &Peer| p@);
                let item: &Peer = &peers[j];
                cands.push(item);
                proof {
                    let bp = t.buckets[b as int].peers;
                    let cv = cands@.map_values(|p: &Peer| p@);
                    assert(item@ == bp[j as int]);
                    assert(cv =~= before.push(bp[j as int]));
                    assert(spec_bucket_index(t.local_id, bp[j as int].id) == b);
                    assert forall|x: int, y: int|
                        0 <= x < cv.len() && 0 <= y < cv.len() && x != y implies #[trigger] cv[x].id != #[trigger] cv[y].id by {
                        if x == before.len() || y == before.len() {
                            let o = if x == before.len() { y } else { x };
                            if o < base.len() {
                                assert(cv[o] == base[o]);
                            } else {
                                assert(cv[o] == bp[o - base.len()]);
                                assert(o - base.len() != j);
                            }
                        } else {
                            assert(cv[x] == before[x] && cv[y] == before[y]);
                        }
                    }
                    assert(cv =~= base + bp.take(j + 1));
                }
                j = j + 1;
            }
            proof {
                assert(t.buckets[b as int].peers.take(n as int) =~= t.buckets[b as int].peers);
                assert(t.buckets.take(b + 1).drop_last() =~= t.buckets.take(b as int));
            }
            b = b + 1;
        }
        proof {
            assert(t.buckets.take(256) =~= t.buckets);
            lemma_all_peers_buckets(t, 256);
            let cv = cands@.map_values(|p: &Peer| p@);
            assert forall|q: int| 0 <= q < cands@.len() implies (#[trigger] cands@[q])@.id.len() == 32 by {
                assert(cv[q] == cands@[q]@);
                assert(cv[q] == all_peers(t.buckets.take(256))[q]);
            }
        }
        select_closest(&cands, target.as_bytes(), k)
    }

    /// The local id.
    pub fn local_id(&self) -> (r: &PeerId)
        ensures
            routing_table_wf(self@),
            r@ == self@.local_id,
    {
        proof {
            use_type_invariant(self);
        }
        &self.local_id
    }

    /// The bucket at an index, if the index is below 256.
    pub fn bucket(&self, index: usize) -> (r: Option<&KBucket>)
        ensures
            routing_table_wf(self@),
            r is Some <==> index < 256,
            r matches Some(b) ==> b@ == self@.buckets[index as int],
    {
        proof {
            use_type_invariant(self);
        }
        if index < self.buckets.len() {
            Some(&self.buckets[index])
        } else {
            None
        }
    }

    /// The buckets, by index.
    pub fn iter_buckets(&self) -> (r: std::slice::Iter<'_, KBucket>)
        ensures
            routing_table_wf(self@),
            r.remaining().unref().map_values(|b: KBucket| b@) == self@.buckets,
    {
        proof {
            use_type_invariant(self);
        }
        let r = self.buckets.iter();
        proof {
            broadcast use vstd::std_specs::slice::axiom_spec_slice_iter;
            assert(r.remaining() == self.buckets@.as_ref());
            assert(self.buckets@.as_ref().unref() =~= self.buckets@);
        }
        r
    }

    /// The buckets as a slice, by index.
    pub fn buckets_slice(&self) -> (r: &[KBucket])
        ensures
            routing_table_wf(self@),
            r@.map_values(|b: KBucket| b@) == self@.buckets,
    {
        proof {
            use_type_invariant(self);
        }
        self.buckets.as_slice()
    }

    /// The number of peers in all buckets.
    pub fn total_peers(&self) -> (r: usize)
        ensures
            routing_table_wf(self@),
            r == all_peers(self@.buckets).len(),
    {
        proof {
            use_type_invariant(self);
        }
        let ghost t = self@;
        let mut total: usize = 0;
        let mut b: usize = 0;
        while b < BUCKET_COUNT
            invariant
                t == self@,
                routing_table_wf(t),
                self.buckets@.len() == 256,
                t.buckets == self.buckets@.map_values(|x: KBucket| x@),
                b <= 256,
                total == all_peers(t.buckets.take(b as int)).len(),
                total <= 20 * b,
            decreases 256 - b,
        {
            let bucket = &self.buckets[b];
            assert(bucket@ == t.buckets[b as int]);
            assert(kbucket_wf(t.buckets[b as int]) && t.buckets[b as int].max_size == 20);
            total = total + bucket.len();
            proof {
                assert(t.buckets.take(b + 1).drop_last() =~= t.buckets.take(b as int));
            }
            b = b + 1;
        }
        assert(t.buckets.take(256) =~= t.buckets);
        total
    }
}

} // verus!
