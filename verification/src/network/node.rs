//! How a node reaches a peer, by its NAT type.

use vstd::prelude::*;
use crate::network::nat_detection::NatType;

verus! {

/// The way to reach a peer.
#[derive(Debug, Clone, Copy, PartialEq, Eq, Structural)]
pub enum ConnectStrategy {
    /// Public IP: connect directly.
    Direct,
    /// Cone NAT: try hole punching.
    HolePunch,
    /// Symmetric or unknown NAT: go through a beacon.
    Beacon,
}

/// The connection strategy for a NAT type.
pub fn connection_strategy(nat_type: NatType) -> (r: ConnectStrategy)
    ensures
        r == match nat_type {
            NatType::Direct => ConnectStrategy::Direct,
            NatType::Cone | NatType::Restricted => ConnectStrategy::HolePunch,
            NatType::Symmetric | NatType::Unknown => ConnectStrategy::Beacon,
        },
{
    match nat_type {
        NatType::Direct => ConnectStrategy::Direct,
        NatType::Cone | NatType::Restricted => ConnectStrategy::HolePunch,
        NatType::Symmetric | NatType::Unknown => ConnectStrategy::Beacon,
    }
}

} // verus!
