//! Kademlia bucket: up to `max_size` peers with distinct ids, least recently
//! updated first.

use vstd::prelude::*;
use crate::network::dht::{distinct_peer_ids, is_k_closest, select_closest};
use crate::network::peer::{Peer, SpecPeer, lemma_peer_view_id_len};
use crate::protocol::peer_id::PeerId;
use crate::wire::bytes32_eq;

verus! {

/// Result of inserting a peer into a bucket.
#[derive(Debug, Clone, Copy, PartialEq, Eq, Structural)]
pub enum InsertResult {
    /// A new peer was added.
    Added,
    /// A known peer was replaced and moved to the end.
    Updated,
    /// The bucket is full; the peer was not added.
    Full,
}

/// The mathematical content of a bucket.
pub struct SpecKBucket {
    pub peers: Seq<SpecPeer>,
    pub max_size: nat,
}

/// The bucket holds a peer with this id.
pub open spec fn bucket_has_id(peers: Seq<SpecPeer>, id: Seq<u8>) -> bool {
    exists|i: int| 0 <= i < peers.len() && #[trigger] peers[i].id == id
}

/// What inserting a peer does to a bucket: a known id is removed and the new
/// peer appended (moved to the end); an unknown id is appended while there is
/// room; otherwise the bucket stays as it was.
pub open spec fn spec_kbucket_insert(b: SpecKBucket, p: SpecPeer) -> (SpecKBucket, InsertResult) {
    if bucket_has_id(b.peers, p.id) {
        let i = choose|i: int| 0 <= i < b.peers.len() && #[trigger] b.peers[i].id == p.id;
        (SpecKBucket { peers: b.peers.remove(i).push(p), ..b }, InsertResult::Updated)
    } else if b.peers.len() < b.max_size {
        (SpecKBucket { peers: b.peers.push(p), ..b }, InsertResult::Added)
    } else {
        (b, InsertResult::Full)
    }
}

/// Well-formed bucket content: distinct 32-byte ids, no more peers than the bucket size.
pub open spec fn kbucket_wf(b: SpecKBucket) -> bool {
    &&& distinct_peer_ids(b.peers)
    &&& b.peers.len() <= b.max_size
    &&& forall|i: int| 0 <= i < b.peers.len() ==> (#[trigger] b.peers[i]).id.len() == 32
}

/// Inserting into a well-formed bucket keeps it well-formed.
pub proof fn lemma_kbucket_insert_wf(b: SpecKBucket, p: SpecPeer)
    requires
        kbucket_wf(b),
        p.id.len() == 32,
    ensures
        kbucket_wf(spec_kbucket_insert(b, p).0),
        spec_kbucket_insert(b, p).0.max_size == b.max_size,
        forall|x: int|
            0 <= x < spec_kbucket_insert(b, p).0.peers.len() ==> #[trigger] spec_kbucket_insert(
                b,
                p,
            ).0.peers[x] == p || b.peers.contains(spec_kbucket_insert(b, p).0.peers[x]),
{
    let nb = spec_kbucket_insert(b, p).0;
    if bucket_has_id(b.peers, p.id) {
        let i = choose|i: int| 0 <= i < b.peers.len() && #[trigger] b.peers[i].id == p.id;
        let r = b.peers.remove(i);
        assert forall|x: int, y: int|
            0 <= x < nb.peers.len() && 0 <= y < nb.peers.len() && x != y implies #[trigger] nb.peers[x].id
            != #[trigger] nb.peers[y].id by {
            let x2 = if x < i { x } else { x + 1 };
            let y2 = if y < i { y } else { y + 1 };
            if x < r.len() && y < r.len() {
                assert(nb.peers[x] == b.peers[x2] && nb.peers[y] == b.peers[y2]);
            } else if x == r.len() {
                assert(nb.peers[y] == b.peers[y2]);
                assert(b.peers[y2].id != b.peers[i].id);
            } else {
                assert(nb.peers[x] == b.peers[x2]);
                assert(b.peers[x2].id != b.peers[i].id);
            }
        }
        assert forall|x: int| 0 <= x < nb.peers.len() implies (#[trigger] nb.peers[x]).id.len() == 32 by {
            if x < r.len() {
                let x2 = if x < i { x } else { x + 1 };
                assert(nb.peers[x] == b.peers[x2]);
            }
        }
        assert forall|x: int| 0 <= x < nb.peers.len() implies #[trigger] nb.peers[x] == p || b.peers.contains(nb.peers[x]) by {
            if x < r.len() {
                let x2 = if x < i { x } else { x + 1 };
                assert(nb.peers[x] == b.peers[x2]);
            }
        }
    } else if b.peers.len() < b.max_size {
        assert forall|x: int, y: int|
            0 <= x < nb.peers.len() && 0 <= y < nb.peers.len() && x != y implies #[trigger] nb.peers[x].id
            != #[trigger] nb.peers[y].id by {
            if x == b.peers.len() {
                assert(nb.peers[y] == b.peers[y]);
            } else if y == b.peers.len() {
                assert(nb.peers[x] == b.peers[x]);
            } else {
                assert(nb.peers[x] == b.peers[x] && nb.peers[y] == b.peers[y]);
            }
        }
        assert forall|x: int| 0 <= x < nb.peers.len() implies (#[trigger] nb.peers[x]).id.len() == 32 by {
            if x < b.peers.len() {
                assert(nb.peers[x] == b.peers[x]);
            }
        }
        assert forall|x: int| 0 <= x < nb.peers.len() implies #[trigger] nb.peers[x] == p || b.peers.contains(nb.peers[x]) by {
            if x < b.peers.len() {
                assert(nb.peers[x] == b.peers[x]);
            }
        }
    }
}

/// Kademlia bucket storing up to `max_size` peers.
pub struct KBucket {
    peers: Vec<Peer>,
    max_size: usize,
}

impl View for KBucket {
    type V = SpecKBucket;

    closed spec fn view(&self) -> SpecKBucket {
        SpecKBucket { peers: self.peers@.map_values(|p: Peer| p@), max_size: self.max_size as nat }
    }
}

impl KBucket {
    #[verifier::type_invariant]
    spec fn inv(self) -> bool {
        kbucket_wf(self@)
    }

    /// The bucket is well-formed (distinct ids, within its size).
    pub(crate) fn check_wf(&self)
        ensures
            kbucket_wf(self@),
    {
        proof {
            use_type_invariant(self);
        }
    }

    /// An empty bucket of the given size.
    pub fn new(max_size: usize) -> (r: Self)
        ensures
            r@ == (SpecKBucket { peers: Seq::empty(), max_size: max_size as nat }),
    {
        let r = KBucket { peers: Vec::new(), max_size };
        assert(r@.peers =~= Seq::<SpecPeer>::empty());
        r
    }

    /// The position of the peer with this id, if the bucket holds one.
    fn position(&self, id: &PeerId) -> (r: Option<usize>)
        ensures
            r matches Some(i) ==> i < self@.peers.len() && self@.peers[i as int].id == id@,
            r is None ==> !bucket_has_id(self@.peers, id@),
    {
        let n = self.peers.len();
        let mut i: usize = 0;
        while i < n
            invariant
                n == self.peers@.len(),
                self@.peers == self.peers@.map_values(|p: Peer| p@),
                i <= n,
                forall|j: int| 0 <= j < i ==> self@.peers[j].id != id@,
            decreases n - i,
        {
            assert(self@.peers[i as int] == self.peers@[i as int]@);
            if bytes32_eq(self.peers[i].id().as_bytes(), id.as_bytes()) {
                return Some(i);
            }
            i = i + 1;
        }
        None
    }

    /// Inserts or updates a peer. A known peer is moved to the end (least recently
    /// updated first); a new one is added only while the bucket is not full.
    pub fn insert(&mut self, peer: Peer) -> (r: InsertResult)
        ensures
            (final(self)@, r) == spec_kbucket_insert(old(self)@, peer@),
    {
        proof {
            use_type_invariant(&*self);
            lemma_peer_view_id_len(peer);
        }
        let ghost old_view = self@;
        if let Some(i) = self.position(peer.id()) {
            proof {
                assert(bucket_has_id(old_view.peers, peer@.id));
                let c = choose|c: int| 0 <= c < old_view.peers.len() && #[trigger] old_view.peers[c].id == peer@.id;
                if c != i {
                    assert(old_view.peers[c].id != old_view.peers[i as int].id);
                }
            }
            let mut peers: Vec<Peer> = Vec::new();
            std::mem::swap(&mut peers, &mut self.peers);
            peers.remove(i);
            peers.push(peer);
            proof {
                assert(peers@.map_values(|p: Peer| p@) =~= old_view.peers.remove(i as int).push(peer@));
                lemma_kbucket_insert_wf(old_view, peer@);
            }
            self.peers = peers;
            return InsertResult::Updated;
        }
        if self.peers.len() < self.max_size {
            let mut peers: Vec<Peer> = Vec::new();
            std::mem::swap(&mut peers, &mut self.peers);
            peers.push(peer);
            proof {
                assert(peers@.map_values(|p: Peer| p@) =~= old_view.peers.push(peer@));
                lemma_kbucket_insert_wf(old_view, peer@);
            }
            self.peers = peers;
            proof {
                assert(!bucket_has_id(old_view.peers, peer@.id));
                assert(self@.peers =~= old_view.peers.push(peer@));
                assert(self@ == spec_kbucket_insert(old_view, peer@).0);
            }
            InsertResult::Added
        } else {
            proof {
                assert(!bucket_has_id(old_view.peers, peer@.id));
            }
            InsertResult::Full
        }
    }

    /// The `k` peers of the bucket closest to the target by XOR distance, closest first.
    pub fn find_closest(&self, target: &PeerId, k: usize) -> (r: Vec<&Peer>)
        ensures
            is_k_closest(self@.peers, target@, k as nat, r@.map_values(|p: &Peer| p@)),
    {
        proof {
            use_type_invariant(self);
        }
        let n = self.peers.len();
        assert(self@.peers == self.peers@.map_values(|p: Peer| p@));
        assert(self@.peers.len() == self.peers@.len());
        let mut cands: Vec<&Peer> = Vec::new();
        let mut i: usize = 0;
        while i < n
            invariant
                n == self.peers@.len(),
                self@.peers == self.peers@.map_values(|p: Peer| p@),
                i <= n,
                cands@.map_values(|p: &Peer| p@) == self@.peers.take(i as int),
            decreases n - i,
        {
            let ghost before = cands@;
            assert(self@.peers.take(i as int).len() == i);
            assert(before.map_values(|p: &Peer| p@).len() == i);
            assert(before.len() == i);
            let item: &Peer = &self.peers[i];
            assert(*item == self.peers@[i as int]);
            cands.push(item);
            assert(cands@ == before.push(item));
            proof {
                assert(cands@[i as int]@ == self.peers@[i as int]@);
                assert(self@.peers[i as int] == self.peers@[i as int]@);
                assert forall|j: int| 0 <= j < i implies #[trigger] cands@[j]@ == self@.peers[j] by {
                    assert(cands@[j] == before[j]);
                    assert(before.map_values(|p: &Peer| p@)[j] == self@.peers.take(i as int)[j]);
                }
            }
            i = i + 1;
            assert(cands@.map_values(|p: &Peer| p@) =~= self@.peers.take(i as int));
        }
        assert(self@.peers.len() == n);
        assert(self@.peers.take(n as int) =~= self@.peers);
        assert forall|q: int| 0 <= q < cands@.len() implies (#[trigger] cands@[q])@.id.len() == 32 by {
            assert(cands@.map_values(|p: &Peer| p@)[q] == self@.peers[q]);
        }
        select_closest(&cands, target.as_bytes(), k)
    }

    /// The peers, least recently updated first.
    pub fn peers(&self) -> (r: &[Peer])
        ensures
            r@.map_values(|p: Peer| p@) == self@.peers,
    {
        self.peers.as_slice()
    }

    /// The number of peers.
    pub fn len(&self) -> (r: usize)
        ensures
            r == self@.peers.len(),
    {
        self.peers.len()
    }

    /// Whether the bucket holds `max_size` peers or more.
    pub fn is_full(&self) -> (r: bool)
        ensures
            r == (self@.peers.len() >= self@.max_size),
    {
        self.peers.len() >= self.max_size
    }
}

} // verus!
