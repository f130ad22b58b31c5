//! Packets, peer identities and cryptographic helpers.

pub mod packet;
pub mod peer_id;
pub mod checksum;
pub mod crypto;
