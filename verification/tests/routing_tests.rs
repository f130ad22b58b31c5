use undertow_protocol::network::addr::SocketAddr;
use undertow_protocol::network::dht::{xor_distance, RoutingTable, BUCKET_COUNT, BUCKET_SIZE};
use undertow_protocol::network::kbucket::{InsertResult, KBucket};
use undertow_protocol::network::peer::Peer;
use undertow_protocol::protocol::peer_id::PeerId;

fn key(y: u8) -> PeerId {
    let mut b = [0u8; 32];
    b[0] = y;
    PeerId::from_bytes(b).unwrap()
}

fn peer(y: u8) -> Peer {
    Peer::new(key(y), SocketAddr::v4(10, 0, 0, y, 4000))
}

fn ids(peers: &[&Peer]) -> Vec<u8> {
    peers.iter().map(|p| p.id().as_bytes()[0]).collect()
}

#[test]
fn xor_distance_bytes() {
    let mut a = [0u8; 32];
    let mut b = [0u8; 32];
    a[0] = 0b1010;
    b[0] = 0b0110;
    a[31] = 0xff;
    let d = xor_distance(&a, &b);
    assert_eq!(d[0], 0b1100);
    assert_eq!(d[31], 0xff);
    assert_eq!(xor_distance(&a, &a), [0u8; 32]);
    assert_eq!(xor_distance(&a, &b), xor_distance(&b, &a));
}

#[test]
fn kbucket_insert_results() {
    let mut b = KBucket::new(2);
    assert_eq!(b.len(), 0);
    assert!(!b.is_full());
    assert_eq!(b.insert(peer(3)), InsertResult::Added);
    assert_eq!(b.insert(peer(4)), InsertResult::Added);
    assert!(b.is_full());
    assert_eq!(b.insert(peer(5)), InsertResult::Full);
    assert_eq!(b.len(), 2);
    let order: Vec<u8> = b.peers().iter().map(|p| p.id().as_bytes()[0]).collect();
    assert_eq!(order, vec![3, 4]);
}

#[test]
fn kbucket_update_moves_to_end() {
    let mut b = KBucket::new(3);
    b.insert(peer(3));
    b.insert(peer(4));
    b.insert(peer(5));
    let mut again = peer(3);
    again.update_seen(42);
    assert_eq!(b.insert(again), InsertResult::Updated);
    let order: Vec<u8> = b.peers().iter().map(|p| p.id().as_bytes()[0]).collect();
    assert_eq!(order, vec![4, 5, 3]);
    assert_eq!(b.peers()[2].last_seen(), 42);
    assert_eq!(b.len(), 3);
}

#[test]
fn kbucket_update_when_full() {
    let mut b = KBucket::new(1);
    assert_eq!(b.insert(peer(3)), InsertResult::Added);
    assert_eq!(b.insert(peer(3)), InsertResult::Updated);
    assert_eq!(b.insert(peer(4)), InsertResult::Full);
}

#[test]
fn kbucket_find_closest() {
    let mut b = KBucket::new(10);
    for y in [1u8, 3, 4, 6, 9] {
        b.insert(peer(y));
    }
    let target = key(5);
    assert_eq!(ids(&b.find_closest(&target, 3)), vec![4, 6, 1]);
    assert_eq!(ids(&b.find_closest(&target, 10)), vec![4, 6, 1, 3, 9]);
    assert!(b.find_closest(&target, 0).is_empty());
}

#[test]
fn routing_table_new() {
    let t = RoutingTable::new(key(0));
    assert_eq!(t.local_id(), &key(0));
    assert_eq!(t.total_peers(), 0);
    assert_eq!(t.iter_buckets().count(), BUCKET_COUNT);
    assert!(t.bucket(255).is_some());
    assert!(t.bucket(256).is_none());
    assert!(t.buckets_slice().iter().all(|b| b.len() == 0 && !b.is_full()));
}

#[test]
fn routing_table_bucket_index() {
    let t = RoutingTable::new(key(0));
    assert_eq!(t.bucket_index(&key(1)), 7);
    assert_eq!(t.bucket_index(&key(3)), 6);
    assert_eq!(t.bucket_index(&key(4)), 5);
    assert_eq!(t.bucket_index(&key(16)), 3);
    assert_eq!(t.bucket_index(&key(0)), 255);
    let mut far = [0u8; 32];
    far[31] = 5;
    let far = PeerId::from_bytes(far).unwrap();
    assert_eq!(t.bucket_index(&far), 31 * 8 + 5);
}

#[test]
fn bucket_index_is_symmetric() {
    let a = RoutingTable::new(key(3));
    let b = RoutingTable::new(key(9));
    assert_eq!(a.bucket_index(&key(9)), b.bucket_index(&key(3)));
}

#[test]
fn routing_table_insert_and_find_closest() {
    let mut t = RoutingTable::new(key(0));
    for y in [1u8, 3, 4, 6, 9] {
        assert_eq!(t.insert(peer(y)), InsertResult::Added);
    }
    assert_eq!(t.insert(peer(4)), InsertResult::Updated);
    assert_eq!(t.total_peers(), 5);
    let before = t.total_peers();
    assert_eq!(t.insert(peer(14)), InsertResult::Added);
    assert_eq!(t.total_peers(), before + 1);
    assert_eq!(t.bucket(4).unwrap().len(), 2);
    assert_eq!(t.bucket(5).unwrap().len(), 2);
    assert_eq!(t.bucket(7).unwrap().len(), 1);
    assert_eq!(ids(&t.find_closest(&key(5), 3)), vec![4, 6, 1]);
    assert_eq!(t.iter_buckets().count(), 256);
    assert_eq!(ids(&t.find_closest(&key(0), 2)), vec![1, 3]);
}

#[test]
fn routing_table_bucket_fills_up() {
    let mut t = RoutingTable::new(key(0));
    let mut added = 0;
    let mut full = 0;
    for y in 32u8..=127 {
        let mut b = [0u8; 32];
        b[0] = y;
        if let Ok(id) = PeerId::from_bytes(b) {
            match t.insert(Peer::new(id, SocketAddr::v4(1, 1, 1, 1, 1))) {
                InsertResult::Added => added += 1,
                InsertResult::Full => full += 1,
                InsertResult::Updated => panic!("no peer was inserted twice"),
            }
        }
    }
    // 21 valid keys fall into bucket 2 (first byte 32..=63) and 25 into bucket 1 (64..=127).
    assert_eq!(added, 2 * BUCKET_SIZE);
    assert_eq!(full, 1 + 5);
    assert_eq!(t.bucket(1).unwrap().len(), BUCKET_SIZE);
    assert_eq!(t.bucket(2).unwrap().len(), BUCKET_SIZE);
    assert!(t.bucket(1).unwrap().is_full());
    assert_eq!(t.total_peers(), 2 * BUCKET_SIZE);
}
