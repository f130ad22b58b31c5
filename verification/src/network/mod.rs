//! Network layer: addresses, peers, Kademlia routing, NAT and STUN helpers,
//! LAN discovery state and connection strategy.

pub mod addr;
pub mod addr_text;
pub mod dht;
pub mod kbucket;
pub mod lan_beacon;
pub mod lan_discovery;
pub mod local;
pub mod nat_detection;
pub mod node;
pub mod peer;
pub mod stun;
