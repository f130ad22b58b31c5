//! Undertow protocol core: wire formats, peer identities, Kademlia routing,
//! NAT/STUN helpers, LAN discovery state and user profiles.

pub mod network;
pub mod protocol;
pub mod storage;
pub mod text;
pub mod wire;
