//! Socket addresses as plain values: an IPv4 or IPv6 address and a port.

use vstd::prelude::*;
use crate::wire::be32_value;

verus! {

/// An IP address, as the big-endian number of its octets (four or sixteen).
#[derive(Debug, Clone, Copy, PartialEq, Eq, Hash, Structural)]
pub enum IpAddr {
    V4(u32),
    V6(u128),
}

/// An IP address with a port.
#[derive(Debug, Clone, Copy, PartialEq, Eq, Hash, Structural)]
pub struct SocketAddr {
    pub ip: IpAddr,
    pub port: u16,
}

impl SocketAddr {
    /// An IPv4 socket address.
    pub fn v4(a: u8, b: u8, c: u8, d: u8, port: u16) -> (r: Self)
        ensures
            r == (SocketAddr { ip: IpAddr::V4(be32_value(a, b, c, d)), port }),
    {
        SocketAddr { ip: IpAddr::V4((a as u32) * 0x1000000 + (b as u32) * 0x10000 + (c as u32) * 0x100 + (d as u32)), port }
    }

    /// An IPv6 socket address from its address bits.
    pub fn v6(bits: u128, port: u16) -> (r: Self)
        ensures
            r == (SocketAddr { ip: IpAddr::V6(bits), port }),
    {
        SocketAddr { ip: IpAddr::V6(bits), port }
    }

    /// The port.
    pub fn port(&self) -> (r: u16)
        ensures
            r == self.port,
    {
        self.port
    }

    /// The IP address.
    pub fn ip(&self) -> (r: IpAddr)
        ensures
            r == self.ip,
    {
        self.ip
    }
}

} // verus!
