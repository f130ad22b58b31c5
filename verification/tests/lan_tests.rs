use undertow_protocol::network::addr::{IpAddr, SocketAddr};
use undertow_protocol::network::lan_beacon::{
    chat_object_start, ChatMessage, LanAction, LanEvent, LanMessage, LanMessageType, LanPeers, HEARTBEAT_INTERVAL_SECS,
    MULTICAST_GROUP, MULTICAST_PORT, PEER_TIMEOUT_MS,
};
use undertow_protocol::network::lan_discovery::{
    LanDiscoveryMessage, LanMessageType as DiscoveryType, BROADCAST_IP, BROADCAST_PORT,
};
use undertow_protocol::protocol::peer_id::PeerId;

const ME: [u8; 32] = [1; 32];

fn id(n: u8) -> [u8; 32] {
    [n; 32]
}

fn msg(peer: u8, name: &str, port: u16, t: LanMessageType) -> LanMessage {
    LanMessage { peer_id: id(peer), username: name.to_string(), port, timestamp: 0, msg_type: t }
}

fn src(d: u8) -> SocketAddr {
    SocketAddr::v4(192, 168, 0, d, 50000)
}

#[test]
fn constants() {
    assert_eq!(MULTICAST_GROUP, [239, 255, 0, 1]);
    assert_eq!(MULTICAST_PORT, 9003);
    assert_eq!(HEARTBEAT_INTERVAL_SECS, 5);
    assert_eq!(PEER_TIMEOUT_MS, 30_000);
    assert_eq!(BROADCAST_PORT, 9999);
    assert_eq!(BROADCAST_IP, 0xffff_ffff);
}

#[test]
fn announce_adds_peer_once() {
    let mut peers = LanPeers::new();
    let a = peers.handle_message(&ME, &msg(2, "bob", 9003, LanMessageType::Announce), src(7), 1000, None);
    match a {
        Some(LanAction::Emit(LanEvent::PeerJoined { peer_id, username, addr })) => {
            assert_eq!(peer_id, id(2));
            assert_eq!(username, "bob");
            assert_eq!(addr, src(7));
        }
        other => panic!("unexpected {:?}", other),
    }
    assert_eq!(peers.len(), 1);
    let p = peers.get(&id(2)).unwrap();
    assert_eq!(p.addr, SocketAddr { ip: IpAddr::V4(0xc0a80007), port: 9003 });
    assert_eq!(p.last_seen, 1000);
    assert!(p.is_active);

    let again = peers.handle_message(&ME, &msg(2, "bobby", 9004, LanMessageType::Announce), src(8), 2000, None);
    assert!(again.is_none());
    assert_eq!(peers.len(), 1);
    let p = peers.get(&id(2)).unwrap();
    assert_eq!(p.username, "bobby");
    assert_eq!(p.addr, SocketAddr::v4(192, 168, 0, 8, 9004));
    assert_eq!(p.last_seen, 2000);
}

#[test]
fn own_messages_are_ignored() {
    let mut peers = LanPeers::new();
    let own = LanMessage { peer_id: ME, username: "me".to_string(), port: 1, timestamp: 0, msg_type: LanMessageType::Announce };
    assert!(peers.handle_message(&ME, &own, src(1), 5, None).is_none());
    assert_eq!(peers.len(), 0);
    let ping = LanMessage { msg_type: LanMessageType::Ping, ..own };
    assert!(peers.handle_message(&ME, &ping, src(1), 5, None).is_none());
}

#[test]
fn goodbye_removes_peer() {
    let mut peers = LanPeers::new();
    peers.handle_message(&ME, &msg(2, "bob", 1, LanMessageType::Announce), src(2), 10, None);
    peers.handle_message(&ME, &msg(3, "eve", 1, LanMessageType::Announce), src(3), 10, None);
    let a = peers.handle_message(&ME, &msg(2, "ignored", 1, LanMessageType::Goodbye), src(2), 20, None);
    match a {
        Some(LanAction::Emit(LanEvent::PeerLeft { peer_id, username })) => {
            assert_eq!(peer_id, id(2));
            assert_eq!(username, "bob");
        }
        other => panic!("unexpected {:?}", other),
    }
    assert_eq!(peers.len(), 1);
    assert!(peers.get(&id(2)).is_none());
    let unknown = peers.handle_message(&ME, &msg(9, "x", 1, LanMessageType::Goodbye), src(9), 20, None);
    assert!(unknown.is_none());
    assert_eq!(peers.len(), 1);
}

#[test]
fn ping_asks_for_pong() {
    let mut peers = LanPeers::new();
    let a = peers.handle_message(&ME, &msg(2, "bob", 1, LanMessageType::Ping), src(4), 10, None);
    match a {
        Some(LanAction::SendPong { to }) => assert_eq!(to, src(4)),
        other => panic!("unexpected {:?}", other),
    }
    assert_eq!(peers.len(), 0);
}

#[test]
fn pong_refreshes_known_peer() {
    let mut peers = LanPeers::new();
    peers.handle_message(&ME, &msg(2, "bob", 1, LanMessageType::Announce), src(2), 10, None);
    assert!(peers.handle_message(&ME, &msg(2, "bob", 1, LanMessageType::Pong), src(2), 99, None).is_none());
    assert_eq!(peers.get(&id(2)).unwrap().last_seen, 99);
    assert!(peers.handle_message(&ME, &msg(5, "z", 1, LanMessageType::Pong), src(5), 99, None).is_none());
    assert_eq!(peers.len(), 1);
}

#[test]
fn message_emits_chat() {
    let mut peers = LanPeers::new();
    let chat = ChatMessage { sender_id: id(2), sender_name: "bob".to_string(), content: "hi".to_string(), timestamp: 3 };
    let a = peers.handle_message(&ME, &msg(2, "bob", 1, LanMessageType::Message), src(2), 10, Some(&chat));
    match a {
        Some(LanAction::Emit(LanEvent::ChatMessage { sender_id, sender_name, content })) => {
            assert_eq!(sender_id, id(2));
            assert_eq!(sender_name, "bob");
            assert_eq!(content, "hi");
        }
        other => panic!("unexpected {:?}", other),
    }
    assert!(peers.handle_message(&ME, &msg(2, "bob", 1, LanMessageType::Message), src(2), 10, None).is_none());
    assert_eq!(peers.len(), 0);
}

#[test]
fn expire_drops_silent_peers() {
    let mut peers = LanPeers::new();
    peers.handle_message(&ME, &msg(2, "old", 1, LanMessageType::Announce), src(2), 1_000, None);
    peers.handle_message(&ME, &msg(3, "fresh", 1, LanMessageType::Announce), src(3), 20_000, None);
    let events = peers.expire(31_001, PEER_TIMEOUT_MS);
    assert_eq!(events.len(), 1);
    match &events[0] {
        LanEvent::PeerLeft { peer_id, username } => {
            assert_eq!(*peer_id, id(2));
            assert_eq!(username, "old");
        }
        other => panic!("unexpected {:?}", other),
    }
    assert_eq!(peers.len(), 1);
    assert!(peers.get(&id(3)).is_some());
    assert!(peers.expire(50_000, PEER_TIMEOUT_MS).is_empty());
    assert_eq!(peers.expire(50_001, PEER_TIMEOUT_MS).len(), 1);
    assert_eq!(peers.len(), 0);
}

#[test]
fn expire_keeps_peer_at_exact_timeout() {
    let mut peers = LanPeers::new();
    peers.handle_message(&ME, &msg(2, "a", 1, LanMessageType::Announce), src(2), 100, None);
    assert!(peers.expire(100 + PEER_TIMEOUT_MS, PEER_TIMEOUT_MS).is_empty());
    assert!(peers.expire(50, PEER_TIMEOUT_MS).is_empty());
    assert_eq!(peers.len(), 1);
}

#[test]
fn active_peers_lists_table_order() {
    let mut peers = LanPeers::new();
    for n in [4u8, 2, 7] {
        peers.handle_message(&ME, &msg(n, "p", 1, LanMessageType::Announce), src(n), 1, None);
    }
    let active: Vec<u8> = peers.active_peers().iter().map(|p| p.peer_id[0]).collect();
    assert_eq!(active, vec![4, 2, 7]);
    let copy = peers.get(&id(7)).unwrap().duplicate();
    assert_eq!(copy.peer_id, id(7));
}

#[test]
fn discovery_message_for_node() {
    let mut b = [0u8; 32];
    b[0] = 3;
    let pid = PeerId::from_bytes(b).unwrap();
    let m = LanDiscoveryMessage::for_node(&pid, &"alice".to_string(), 4242, DiscoveryType::Announce);
    assert_eq!(m.peer_id, pid.to_hex());
    assert_eq!(m.username, "alice");
    assert_eq!(m.port, 4242);
    assert_eq!(m.msg_type, DiscoveryType::Announce);
    let l = LanDiscoveryMessage::for_node(&pid, &"alice".to_string(), 1, DiscoveryType::Leave);
    assert_eq!(l.msg_type, DiscoveryType::Leave);
}

#[test]
fn chat_object_is_after_last_brace() {
    let data = br#"{"a":[1,2]}{"content":"x"}"#;
    assert_eq!(chat_object_start(data), Some(11));
    assert_eq!(chat_object_start(b"{}"), Some(0));
    assert_eq!(chat_object_start(b"no braces"), None);
    assert_eq!(chat_object_start(b""), None);
}
