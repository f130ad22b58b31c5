//! Peer discovery in the local network via UDP broadcast: the messages.

use vstd::prelude::*;
use crate::protocol::peer_id::PeerId;
use crate::text::hex_lower;

verus! {

/// Port of the LAN broadcast.
pub const BROADCAST_PORT: u16 = 9999;

/// The limited broadcast address 255.255.255.255.
pub const BROADCAST_IP: u32 = 0xffff_ffff;

/// Kinds of discovery messages.
#[derive(Debug, Clone, Copy, PartialEq, Eq, Structural)]
pub enum LanMessageType {
    /// "I am here."
    Announce,
    /// "I am leaving."
    Leave,
}

/// A LAN discovery message.
#[derive(Debug, Clone)]
pub struct LanDiscoveryMessage {
    pub peer_id: String,
    pub username: String,
    pub port: u16,
    pub msg_type: LanMessageType,
}

impl LanDiscoveryMessage {
    /// The message that a node sends about itself: its peer id in hex, its
    /// username and port, and the kind.
    pub fn for_node(peer_id: &PeerId, username: &String, port: u16, msg_type: LanMessageType) -> (r: Self)
        ensures
            r.peer_id@ == hex_lower(peer_id@),
            r.username@ == username@,
            r.port == port,
            r.msg_type == msg_type,
    {
        LanDiscoveryMessage { peer_id: peer_id.to_hex(), username: username.clone(), port, msg_type }
    }
}

} // verus!
