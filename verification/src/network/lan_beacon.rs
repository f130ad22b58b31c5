//! Peer discovery in the local network via UDP multicast: the messages, and the
//! table of known LAN peers with the decisions taken on each received message
//! and on each heartbeat. Sockets, timers and JSON live with the caller, which
//! feeds events in and carries the returned actions out.

use vstd::prelude::*;
use crate::network::addr::SocketAddr;
use crate::wire::bytes32_eq;

verus! {

/// Multicast group of the LAN beacon: 239.255.0.1.
pub const MULTICAST_GROUP: [u8; 4] = [239, 255, 0, 1];

/// Multicast port of the LAN beacon.
pub const MULTICAST_PORT: u16 = 9003;

/// Seconds between two announcements.
pub const HEARTBEAT_INTERVAL_SECS: u64 = 5;

/// Milliseconds after which an active peer that was not heard from is dropped.
pub const PEER_TIMEOUT_MS: u64 = 30_000;

/// Kinds of LAN messages.
#[derive(Debug, Clone, Copy, PartialEq, Eq, Structural)]
pub enum LanMessageType {
    /// "I am here."
    Announce,
    /// "I am leaving."
    Goodbye,
    /// Reachability check.
    Ping,
    /// Reply to a ping.
    Pong,
    /// Chat message.
    Message,
}

/// A LAN message for peer discovery.
#[derive(Debug, Clone)]
pub struct LanMessage {
    pub peer_id: [u8; 32],
    pub username: String,
    pub port: u16,
    pub timestamp: u64,
    pub msg_type: LanMessageType,
}

/// A LAN chat message.
#[derive(Debug, Clone)]
pub struct ChatMessage {
    pub sender_id: [u8; 32],
    pub sender_name: String,
    pub content: String,
    pub timestamp: u64,
}

/// A peer known in the LAN. `last_seen` is a monotonic time in milliseconds.
#[derive(Debug, Clone)]
pub struct LanPeer {
    pub peer_id: [u8; 32],
    pub username: String,
    pub addr: SocketAddr,
    pub last_seen: u64,
    pub is_active: bool,
}

/// The mathematical content of a LAN peer.
pub struct SpecLanPeer {
    pub peer_id: Seq<u8>,
    pub username: Seq<char>,
    pub addr: SocketAddr,
    pub last_seen: u64,
    pub is_active: bool,
}

impl View for LanPeer {
    type V = SpecLanPeer;

    open spec fn view(&self) -> SpecLanPeer {
        SpecLanPeer {
            peer_id: self.peer_id@,
            username: self.username@,
            addr: self.addr,
            last_seen: self.last_seen,
            is_active: self.is_active,
        }
    }
}

impl LanPeer {
    /// A copy of the peer.
    pub fn duplicate(&self) -> (r: Self)
        ensures
            r@ == self@,
    {
        LanPeer {
            peer_id: self.peer_id,
            username: self.username.clone(),
            addr: self.addr,
            last_seen: self.last_seen,
            is_active: self.is_active,
        }
    }
}

/// Events of the LAN beacon.
#[derive(Debug, Clone)]
pub enum LanEvent {
    PeerJoined { peer_id: [u8; 32], username: String, addr: SocketAddr },
    PeerLeft { peer_id: [u8; 32], username: String },
    ChatMessage { sender_id: [u8; 32], sender_name: String, content: String },
}

/// The mathematical content of a LAN event.
pub enum SpecLanEvent {
    PeerJoined { peer_id: Seq<u8>, username: Seq<char>, addr: SocketAddr },
    PeerLeft { peer_id: Seq<u8>, username: Seq<char> },
    ChatMessage { sender_id: Seq<u8>, sender_name: Seq<char>, content: Seq<char> },
}

impl View for LanEvent {
    type V = SpecLanEvent;

    open spec fn view(&self) -> SpecLanEvent {
        match self {
            LanEvent::PeerJoined { peer_id, username, addr } => SpecLanEvent::PeerJoined {
                peer_id: peer_id@,
                username: username@,
                addr: *addr,
            },
            LanEvent::PeerLeft { peer_id, username } => SpecLanEvent::PeerLeft {
                peer_id: peer_id@,
                username: username@,
            },
            LanEvent::ChatMessage { sender_id, sender_name, content } => SpecLanEvent::ChatMessage {
                sender_id: sender_id@,
                sender_name: sender_name@,
                content: content@,
            },
        }
    }
}

/// What the caller is to do after a received message.
#[derive(Debug, Clone)]
pub enum LanAction {
    /// Report an event to the application.
    Emit(LanEvent),
    /// Answer with a Pong to this address.
    SendPong { to: SocketAddr },
}

/// The mathematical content of an action.
pub enum SpecLanAction {
    Emit(SpecLanEvent),
    SendPong { to: SocketAddr },
}

impl View for LanAction {
    type V = SpecLanAction;

    open spec fn view(&self) -> SpecLanAction {
        match self {
            LanAction::Emit(e) => SpecLanAction::Emit(e@),
            LanAction::SendPong { to } => SpecLanAction::SendPong { to: *to },
        }
    }
}

/// No two peers of the table share an id.
pub open spec fn distinct_ids(s: Seq<SpecLanPeer>) -> bool {
    forall|i: int, j: int|
        0 <= i < s.len() && 0 <= j < s.len() && i != j ==> #[trigger] s[i].peer_id != #[trigger] s[j].peer_id
}

/// The table holds a peer with this id.
pub open spec fn has_id(s: Seq<SpecLanPeer>, id: Seq<u8>) -> bool {
    exists|i: int| 0 <= i < s.len() && #[trigger] s[i].peer_id == id
}

/// Milliseconds since a peer was last seen, at time `now` (zero if `now` is earlier).
pub open spec fn elapsed(now: u64, p: SpecLanPeer) -> int {
    if now >= p.last_seen {
        now - p.last_seen
    } else {
        0
    }
}

/// An active peer not heard from for longer than the timeout.
pub open spec fn is_expired(p: SpecLanPeer, now: u64, timeout: u64) -> bool {
    elapsed(now, p) > timeout && p.is_active
}

/// The peer that an Announce message from `src` records.
pub open spec fn announced_peer(
    id: Seq<u8>,
    username: Seq<char>,
    src: SocketAddr,
    port: u16,
    now: u64,
) -> SpecLanPeer {
    SpecLanPeer {
        peer_id: id,
        username,
        addr: SocketAddr { ip: src.ip, port },
        last_seen: now,
        is_active: true,
    }
}

/// The event that reports a peer as gone.
pub open spec fn left_event(p: SpecLanPeer) -> SpecLanEvent {
    SpecLanEvent::PeerLeft { peer_id: p.peer_id, username: p.username }
}

/// Where the chat object begins in a datagram that carries a LAN message
/// followed by a chat message: the position of the last `{`, if any.
pub fn chat_object_start(data: &[u8]) -> (r: Option<usize>)
    ensures
        r matches Some(i) ==> i < data@.len() && data@[i as int] == 0x7b && forall|j: int|
            i < j < data@.len() ==> data@[j] != 0x7b,
        r is None ==> forall|j: int| 0 <= j < data@.len() ==> data@[j] != 0x7b,
{
    let mut k: usize = data.len();
    while k > 0
        invariant
            k <= data@.len(),
            forall|j: int| k <= j < data@.len() ==> data@[j] != 0x7b,
        decreases k,
    {
        if data[k - 1] == 0x7b {
            return Some(k - 1);
        }
        k = k - 1;
    }
    None
}

/// The table of peers known in the LAN, by id.
pub struct LanPeers {
    peers: Vec<LanPeer>,
}

impl View for LanPeers {
    type V = Seq<SpecLanPeer>;

    closed spec fn view(&self) -> Seq<SpecLanPeer> {
        self.peers@.map_values(|p: LanPeer| p@)
    }
}

impl LanPeers {
    #[verifier::type_invariant]
    spec fn unique(self) -> bool {
        distinct_ids(self@)
    }

    /// An empty table.
    pub fn new() -> (r: Self)
        ensures
            r@ == Seq::<SpecLanPeer>::empty(),
    {
        let r = LanPeers { peers: Vec::new() };
        assert(r@ =~= Seq::<SpecLanPeer>::empty());
        r
    }

    /// The number of known peers.
    pub fn len(&self) -> (r: usize)
        ensures
            r == self@.len(),
    {
        self.peers.len()
    }

    /// The position of the peer with this id, if it is known.
    fn position(&self, id: &[u8; 32]) -> (r: Option<usize>)
        ensures
            r matches Some(i) ==> i < self@.len() && self@[i as int].peer_id == id@,
            r is None ==> !has_id(self@, id@),
    {
        let n = self.peers.len();
        let mut i: usize = 0;
        while i < n
            invariant
                n == self.peers@.len(),
                i <= n,
                forall|j: int| 0 <= j < i ==> self@[j].peer_id != id@,
            decreases n - i,
        {
            if bytes32_eq(&self.peers[i].peer_id, id) {
                return Some(i);
            }
            i = i + 1;
        }
        None
    }

    /// The peer with this id, if it is known.
    pub fn get(&self, id: &[u8; 32]) -> (r: Option<&LanPeer>)
        ensures
            r is Some <==> has_id(self@, id@),
            r matches Some(p) ==> p@.peer_id == id@ && exists|i: int|
                0 <= i < self@.len() && self@[i] == p@,
    {
        match self.position(id) {
            Some(i) => {
                assert(self@[i as int] == self.peers@[i as int]@);
                Some(&self.peers[i])
            },
            None => None,
        }
    }

    /// Copies of the active peers, in table order.
    pub fn active_peers(&self) -> (r: Vec<LanPeer>)
        ensures
            r@.map_values(|p: LanPeer| p@) == self@.filter(|p: SpecLanPeer| p.is_active),
    {
        let n = self.peers.len();
        let mut r: Vec<LanPeer> = Vec::new();
        let mut i: usize = 0;
        let ghost pred = |p: SpecLanPeer| p.is_active;
        while i < n
            invariant
                n == self.peers@.len(),
                i <= n,
                pred == (|p: SpecLanPeer| p.is_active),
                r@.map_values(|p: LanPeer| p@) == self@.subrange(0, i as int).filter(pred),
            decreases n - i,
        {
            proof {
                reveal_with_fuel(Seq::<_>::filter, 1);
                assert(self@.subrange(0, i + 1).drop_last() =~= self@.subrange(0, i as int));
            }
            if self.peers[i].is_active {
                let p = self.peers[i].duplicate();
                r.push(p);
            }
            i = i + 1;
            assert(r@.map_values(|p: LanPeer| p@) =~= self@.subrange(0, i as int).filter(pred));
        }
        assert(self@.subrange(0, n as int) =~= self@);
        r
    }

    /// Drops the active peers not heard from for more than `timeout` milliseconds
    /// at time `now`, and reports each as gone, in table order. The other peers stay as they were.
    pub fn expire(&mut self, now: u64, timeout: u64) -> (events: Vec<LanEvent>)
        ensures
            final(self)@ == old(self)@.filter(|p: SpecLanPeer| !is_expired(p, now, timeout)),
            events@.map_values(|e: LanEvent| e@) == old(self)@.filter(
                |p: SpecLanPeer| is_expired(p, now, timeout),
            ).map_values(|p: SpecLanPeer| left_event(p)),
    {
        proof {
            use_type_invariant(&*self);
        }
        let ghost old_view = self@;
        let ghost keep = |p: SpecLanPeer| !is_expired(p, now, timeout);
        let ghost gone = |p: SpecLanPeer| is_expired(p, now, timeout);
        let mut rest: Vec<LanPeer> = Vec::new();
        std::mem::swap(&mut rest, &mut self.peers);
        assert(rest@.map_values(|p: LanPeer| p@) =~= old_view);
        let mut kept: Vec<LanPeer> = Vec::new();
        let mut events: Vec<LanEvent> = Vec::new();
        let ghost mut j: int = 0;
        while rest.len() > 0
            invariant
                0 <= j <= old_view.len(),
                distinct_ids(old_view),
                keep == (|p: SpecLanPeer| !is_expired(p, now, timeout)),
                gone == (|p: SpecLanPeer| is_expired(p, now, timeout)),
                rest@.map_values(|p: LanPeer| p@) == old_view.subrange(j, old_view.len() as int),
                kept@.map_values(|p: LanPeer| p@) == old_view.subrange(0, j).filter(keep),
                events@.map_values(|e: LanEvent| e@) == old_view.subrange(0, j).filter(gone).map_values(
                    |p: SpecLanPeer| left_event(p),
                ),
                forall|a: int|
                    0 <= a < kept@.len() ==> exists|b: int|
                        0 <= b < j && #[trigger] old_view[b].peer_id == (#[trigger] kept@[a])@.peer_id,
                distinct_ids(kept@.map_values(|p: LanPeer| p@)),
            decreases rest@.len(),
        {
            let ghost rest_view = rest@.map_values(|p: LanPeer| p@);
            proof {
                assert(rest_view.len() == rest@.len());
                assert(j < old_view.len());
                assert(rest_view[0] == old_view.subrange(j, old_view.len() as int)[0]);
            }
            let ghost old_rest = rest@;
            let p = rest.remove(0);
            proof {
                assert(p@ == rest_view[0]);
                assert(rest_view[0] == old_view[j]);
                assert(rest@ == old_rest.remove(0));
                let rv = rest@.map_values(|p: LanPeer| p@);
                assert forall|k: int| 0 <= k < rest@.len() implies #[trigger] rv[k] == old_view.subrange(
                    j + 1,
                    old_view.len() as int,
                )[k] by {
                    assert(rest@[k] == old_rest[k + 1]);
                    assert(rest_view[k + 1] == old_rest[k + 1]@);
                    assert(rest_view[k + 1] == old_view.subrange(j, old_view.len() as int)[k + 1]);
                }
                assert(rest@.map_values(|p: LanPeer| p@) =~= old_view.subrange(j + 1, old_view.len() as int));
                reveal_with_fuel(Seq::<_>::filter, 1);
                assert(old_view.subrange(0, j + 1).drop_last() =~= old_view.subrange(0, j));
                assert(old_view.subrange(0, j + 1).last() == old_view[j]);
            }
            let elapsed_ms = now.saturating_sub(p.last_seen);
            if elapsed_ms > timeout && p.is_active {
                let ghost ev_before = events@.map_values(|e: LanEvent| e@);
                events.push(LanEvent::PeerLeft { peer_id: p.peer_id, username: p.username });
                proof {
                    assert(events@.map_values(|e: LanEvent| e@) =~= ev_before.push(left_event(old_view[j])));
                    assert(old_view.subrange(0, j + 1).filter(gone) == old_view.subrange(0, j).filter(gone).push(old_view[j]));
                    assert(old_view.subrange(0, j + 1).filter(gone).map_values(|p: SpecLanPeer| left_event(p))
                        =~= old_view.subrange(0, j).filter(gone).map_values(|p: SpecLanPeer| left_event(p)).push(left_event(old_view[j])));
                    assert(old_view.subrange(0, j + 1).filter(keep) == old_view.subrange(0, j).filter(keep));
                    j = j + 1;
                }
            } else {
                let ghost kept_before = kept@.map_values(|p: LanPeer| p@);
                let ghost kept_exec_before = kept@;
                kept.push(p);
                proof {
                    let nv = kept@.map_values(|p: LanPeer| p@);
                    assert(nv =~= kept_before.push(old_view[j]));
                    assert(old_view.subrange(0, j + 1).filter(keep) == old_view.subrange(0, j).filter(keep).push(old_view[j]));
                    assert(old_view.subrange(0, j + 1).filter(gone) == old_view.subrange(0, j).filter(gone));
                    assert forall|a: int|
                        0 <= a < kept@.len() implies exists|b: int|
                            0 <= b < j + 1 && #[trigger] old_view[b].peer_id == (#[trigger] kept@[a])@.peer_id by {
                        if a < kept_exec_before.len() {
                            assert(kept@[a] == kept_exec_before[a]);
                            let b = choose|b: int| 0 <= b < j && #[trigger] old_view[b].peer_id == (#[trigger] kept_exec_before[a])@.peer_id;
                            assert(old_view[b].peer_id == kept@[a]@.peer_id);
                        } else {
                            assert(old_view[j].peer_id == kept@[a]@.peer_id);
                        }
                    }
                    assert forall|a: int, b: int|
                        0 <= a < nv.len() && 0 <= b < nv.len() && a != b implies #[trigger] nv[a].peer_id
                        != #[trigger] nv[b].peer_id by {
                        if a == kept_before.len() {
                            assert(kept@[b] == kept_exec_before[b]);
                            let c = choose|c: int| 0 <= c < j && #[trigger] old_view[c].peer_id == (#[trigger] kept_exec_before[b])@.peer_id;
                            assert(old_view[c].peer_id != old_view[j].peer_id);
                        } else if b == kept_before.len() {
                            assert(kept@[a] == kept_exec_before[a]);
                            let c = choose|c: int| 0 <= c < j && #[trigger] old_view[c].peer_id == (#[trigger] kept_exec_before[a])@.peer_id;
                            assert(old_view[c].peer_id != old_view[j].peer_id);
                        }
                    }
                    j = j + 1;
                }
            }
        }
        proof {
            assert(j == old_view.len());
            assert(old_view.subrange(0, j) =~= old_view);
        }
        self.peers = kept;
        events
    }

    /// Handles a received message from `src` at time `now` (milliseconds).
    /// `chat` is the chat message embedded in a Message, where the caller found one.
    /// Messages that carry our own id change nothing.
    pub fn handle_message(
        &mut self,
        my_peer_id: &[u8; 32],
        msg: &LanMessage,
        src: SocketAddr,
        now: u64,
        chat: Option<&ChatMessage>,
    ) -> (r: Option<LanAction>)
        ensures
            distinct_ids(final(self)@),
            msg.peer_id@ == my_peer_id@ ==> final(self)@ == old(self)@ && r is None,
            msg.peer_id@ != my_peer_id@ ==> match msg.msg_type {
                LanMessageType::Announce => {
                    &&& has_id(final(self)@, msg.peer_id@)
                    &&& (forall|i: int|
                        0 <= i < old(self)@.len() && #[trigger] old(self)@[i].peer_id == msg.peer_id@
                            ==> final(self)@ == old(self)@.update(
                            i,
                            announced_peer(msg.peer_id@, msg.username@, src, msg.port, now),
                        ))
                    &&& !has_id(old(self)@, msg.peer_id@) ==> final(self)@ == old(self)@.push(
                        announced_peer(msg.peer_id@, msg.username@, src, msg.port, now),
                    )
                    &&& has_id(old(self)@, msg.peer_id@) ==> r is None
                    &&& !has_id(old(self)@, msg.peer_id@) ==> (r matches Some(a) && a@ == SpecLanAction::Emit(
                        SpecLanEvent::PeerJoined { peer_id: msg.peer_id@, username: msg.username@, addr: src },
                    ))
                },
                LanMessageType::Goodbye => {
                    &&& !has_id(final(self)@, msg.peer_id@)
                    &&& (forall|i: int|
                        0 <= i < old(self)@.len() && #[trigger] old(self)@[i].peer_id == msg.peer_id@
                            ==> final(self)@ == old(self)@.remove(i) && (r matches Some(a) && a@
                            == SpecLanAction::Emit(
                            SpecLanEvent::PeerLeft { peer_id: msg.peer_id@, username: old(self)@[i].username },
                        )))
                    &&& !has_id(old(self)@, msg.peer_id@) ==> final(self)@ == old(self)@ && r is None
                },
                LanMessageType::Ping => {
                    &&& final(self)@ == old(self)@
                    &&& r matches Some(a) && a@ == SpecLanAction::SendPong { to: src }
                },
                LanMessageType::Pong => {
                    &&& r is None
                    &&& (forall|i: int|
                        0 <= i < old(self)@.len() && #[trigger] old(self)@[i].peer_id == msg.peer_id@
                            ==> final(self)@ == old(self)@.update(
                            i,
                            SpecLanPeer { last_seen: now, is_active: true, ..old(self)@[i] },
                        ))
                    &&& !has_id(old(self)@, msg.peer_id@) ==> final(self)@ == old(self)@
                },
                LanMessageType::Message => {
                    &&& final(self)@ == old(self)@
                    &&& chat is None ==> r is None
                    &&& chat matches Some(c) ==> (r matches Some(a) && a@ == SpecLanAction::Emit(
                        SpecLanEvent::ChatMessage {
                            sender_id: msg.peer_id@,
                            sender_name: msg.username@,
                            content: c.content@,
                        },
                    ))
                },
            },
    {
        proof {
            use_type_invariant(&*self);
        }
        if bytes32_eq(&msg.peer_id, my_peer_id) {
            return None;
        }
        match msg.msg_type {
            LanMessageType::Announce => {
                let peer = LanPeer {
                    peer_id: msg.peer_id,
                    username: msg.username.clone(),
                    addr: SocketAddr { ip: src.ip, port: msg.port },
                    last_seen: now,
                    is_active: true,
                };
                match self.position(&msg.peer_id) {
                    Some(i) => {
                        let ghost old_view = self@;
                        let mut peers: Vec<LanPeer> = Vec::new();
                        std::mem::swap(&mut peers, &mut self.peers);
                        peers.set(i, peer);
                        proof {
                            assert(peers@.map_values(|p: LanPeer| p@) =~= old_view.update(
                                i as int,
                                announced_peer(msg.peer_id@, msg.username@, src, msg.port, now),
                            ));
                        }
                        self.peers = peers;
                        proof {
                            assert(self@ =~= old_view.update(
                                i as int,
                                announced_peer(msg.peer_id@, msg.username@, src, msg.port, now),
                            ));
                            assert(self@[i as int].peer_id == msg.peer_id@);
                        }
                        None
                    },
                    None => {
                        let ghost old_view = self@;
                        let mut peers: Vec<LanPeer> = Vec::new();
                        std::mem::swap(&mut peers, &mut self.peers);
                        peers.push(peer);
                        proof {
                            let nv = peers@.map_values(|p: LanPeer| p@);
                            assert(nv =~= old_view.push(
                                announced_peer(msg.peer_id@, msg.username@, src, msg.port, now),
                            ));
                            assert forall|a: int, b: int|
                                0 <= a < nv.len() && 0 <= b < nv.len() && a != b implies #[trigger] nv[a].peer_id
                                != #[trigger] nv[b].peer_id by {
                                if a == old_view.len() {
                                    assert(old_view[b].peer_id != msg.peer_id@);
                                } else if b == old_view.len() {
                                    assert(old_view[a].peer_id != msg.peer_id@);
                                }
                            }
                        }
                        self.peers = peers;
                        proof {
                            assert(self@ =~= old_view.push(
                                announced_peer(msg.peer_id@, msg.username@, src, msg.port, now),
                            ));
                            assert(self@[old_view.len() as int].peer_id == msg.peer_id@);
                        }
                        Some(
                            LanAction::Emit(
                                LanEvent::PeerJoined {
                                    peer_id: msg.peer_id,
                                    username: msg.username.clone(),
                                    addr: src,
                                },
                            ),
                        )
                    },
                }
            },
            LanMessageType::Goodbye => {
                match self.position(&msg.peer_id) {
                    Some(i) => {
                        let ghost old_view = self@;
                        let mut peers: Vec<LanPeer> = Vec::new();
                        std::mem::swap(&mut peers, &mut self.peers);
                        let removed = peers.remove(i);
                        proof {
                            let nv = peers@.map_values(|p: LanPeer| p@);
                            assert(nv =~= old_view.remove(i as int));
                            assert forall|a: int, b: int|
                                0 <= a < nv.len() && 0 <= b < nv.len() && a != b implies #[trigger] nv[a].peer_id
                                != #[trigger] nv[b].peer_id by {
                                let a2 = if a < i { a } else { a + 1 };
                                let b2 = if b < i { b } else { b + 1 };
                                assert(nv[a] == old_view[a2]);
                                assert(nv[b] == old_view[b2]);
                            }
                        }
                        self.peers = peers;
                        proof {
                            assert(self@ =~= old_view.remove(i as int));
                            assert(removed@ == old_view[i as int]);
                            assert forall|j: int| 0 <= j < self@.len() implies #[trigger] self@[j].peer_id
                                != msg.peer_id@ by {
                                if j < i {
                                    assert(self@[j] == old_view[j]);
                                } else {
                                    assert(self@[j] == old_view[j + 1]);
                                }
                            }
                        }
                        Some(
                            LanAction::Emit(
                                LanEvent::PeerLeft { peer_id: msg.peer_id, username: removed.username },
                            ),
                        )
                    },
                    None => None,
                }
            },
            LanMessageType::Ping => Some(LanAction::SendPong { to: src }),
            LanMessageType::Pong => {
                match self.position(&msg.peer_id) {
                    Some(i) => {
                        let ghost old_view = self@;
                        let old_peer = self.peers[i].duplicate();
                        let peer = LanPeer {
                            peer_id: old_peer.peer_id,
                            username: old_peer.username,
                            addr: old_peer.addr,
                            last_seen: now,
                            is_active: true,
                        };
                        let mut peers: Vec<LanPeer> = Vec::new();
                        std::mem::swap(&mut peers, &mut self.peers);
                        peers.set(i, peer);
                        proof {
                            assert(peers@.map_values(|p: LanPeer| p@) =~= old_view.update(
                                i as int,
                                SpecLanPeer { last_seen: now, is_active: true, ..old_view[i as int] },
                            ));
                        }
                        self.peers = peers;
                        proof {
                            assert(self@ =~= old_view.update(
                                i as int,
                                SpecLanPeer { last_seen: now, is_active: true, ..old_view[i as int] },
                            ));
                        }
                        None
                    },
                    None => None,
                }
            },
            LanMessageType::Message => {
                match chat {
                    Some(c) => Some(
                        LanAction::Emit(
                            LanEvent::ChatMessage {
                                sender_id: msg.peer_id,
                                sender_name: msg.username.clone(),
                                content: c.content.clone(),
                            },
                        ),
                    ),
                    None => None,
                }
            },
        }
    }
}

} // verus!
