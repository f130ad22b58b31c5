//! NAT type classification from the external address that STUN reports.

use vstd::prelude::*;
use crate::network::addr::SocketAddr;

verus! {

/// Types of NAT.
#[derive(Debug, Clone, Copy, PartialEq, Eq, Structural)]
pub enum NatType {
    /// Public IP.
    Direct,
    /// Full cone NAT.
    Cone,
    /// Restricted cone NAT.
    Restricted,
    /// Symmetric NAT: needs a relay.
    Symmetric,
    /// STUN gave no answer.
    Unknown,
}

/// NAT information for this node.
#[derive(Debug, Clone)]
pub struct NatInfo {
    pub nat_type: NatType,
    pub external_addr: Option<SocketAddr>,
    pub local_addrs: Vec<SocketAddr>,
}

/// NAT detection: the decisions taken on what discovery found.
pub struct NatDetector;

impl NatDetector {
    /// Simple heuristic: the external port equals the local one under a cone
    /// NAT; a changed port points to a symmetric NAT.
    pub fn classify_nat(external: &SocketAddr, local_port: u16) -> (r: NatType)
        ensures
            r == (if external.port == local_port {
                NatType::Cone
            } else {
                NatType::Symmetric
            }),
    {
        if external.port == local_port {
            NatType::Cone
        } else {
            NatType::Symmetric
        }
    }

    /// The NAT information from the local addresses and the external address that
    /// STUN found (`None` where every server failed).
    pub fn from_discovery(local_port: u16, local_addrs: Vec<SocketAddr>, external: Option<SocketAddr>) -> (r: NatInfo)
        ensures
            r.local_addrs@ == local_addrs@,
            r.external_addr == external,
            r.nat_type == match external {
                Some(e) => if e.port == local_port {
                    NatType::Cone
                } else {
                    NatType::Symmetric
                },
                None => NatType::Unknown,
            },
    {
        match external {
            Some(e) => NatInfo {
                nat_type: Self::classify_nat(&e, local_port),
                external_addr: Some(e),
                local_addrs,
            },
            None => NatInfo { nat_type: NatType::Unknown, external_addr: None, local_addrs },
        }
    }
}

} // verus!
