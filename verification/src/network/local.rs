//! Local addresses: loopback and LAN.

use vstd::prelude::*;
use crate::network::addr::{IpAddr, SocketAddr};
use crate::wire::{be32_value, lemma_be32_bytes};

verus! {

/// The loopback address 127.0.0.1 as a number.
pub const LOOPBACK_V4: u32 = 0x7f00_0001;

/// An IPv4 address in 10.0.0.0/8, 172.16.0.0/12 or 192.168.0.0/16.
pub open spec fn is_private_v4(bits: u32) -> bool {
    let a = bits / 0x100_0000;
    let b = bits / 0x1_0000 % 0x100;
    a == 10 || (a == 172 && 16 <= b <= 31) || (a == 192 && b == 168)
}

/// An IPv4 address in 127.0.0.0/8.
pub open spec fn is_loopback_v4(bits: u32) -> bool {
    bits / 0x100_0000 == 127
}

/// Local (private or loopback) addresses: IPv4 private or loopback, IPv6 `::1`.
pub open spec fn spec_is_local(addr: SocketAddr) -> bool {
    match addr.ip {
        IpAddr::V4(bits) => is_private_v4(bits) || is_loopback_v4(bits),
        IpAddr::V6(bits) => bits == 1,
    }
}

/// Discovery of local addresses.
pub struct LocalDiscovery;

impl LocalDiscovery {
    /// All local addresses for a port: loopback first, then the LAN address
    /// where one was found.
    pub fn get_local_addrs(port: u16, lan_ip: Option<u32>) -> (r: Vec<SocketAddr>)
        ensures
            r@ == match lan_ip {
                Some(ip) => seq![
                    SocketAddr { ip: IpAddr::V4(LOOPBACK_V4), port },
                    SocketAddr { ip: IpAddr::V4(ip), port },
                ],
                None => seq![SocketAddr { ip: IpAddr::V4(LOOPBACK_V4), port }],
            },
    {
        let mut addrs: Vec<SocketAddr> = Vec::new();
        addrs.push(SocketAddr { ip: IpAddr::V4(LOOPBACK_V4), port });
        if let Some(ip) = lan_ip {
            addrs.push(SocketAddr { ip: IpAddr::V4(ip), port });
        }
        assert(addrs@ =~= match lan_ip {
            Some(ip) => seq![
                SocketAddr { ip: IpAddr::V4(LOOPBACK_V4), port },
                SocketAddr { ip: IpAddr::V4(ip), port },
            ],
            None => seq![SocketAddr { ip: IpAddr::V4(LOOPBACK_V4), port }],
        });
        addrs
    }

    /// The LAN address that a socket's local address gives: an IPv4 address
    /// that is not loopback.
    pub fn lan_ip_of(local: IpAddr) -> (r: Option<u32>)
        ensures
            r == match local {
                IpAddr::V4(bits) => if is_loopback_v4(bits) {
                    None
                } else {
                    Some(bits)
                },
                IpAddr::V6(_) => None,
            },
    {
        match local {
            IpAddr::V4(bits) => if bits / 0x100_0000 == 127 {
                None
            } else {
                Some(bits)
            },
            IpAddr::V6(_) => None,
        }
    }

    /// Whether an address is local (private or loopback).
    pub fn is_local(addr: &SocketAddr) -> (r: bool)
        ensures
            r == spec_is_local(*addr),
    {
        match addr.ip {
            IpAddr::V4(bits) => {
                let a = bits / 0x100_0000;
                let b = bits / 0x1_0000 % 0x100;
                a == 10 || (a == 172 && 16 <= b && b <= 31) || (a == 192 && b == 168) || a == 127
            },
            IpAddr::V6(bits) => bits == 1,
        }
    }
}

/// Which addresses are local, by their octets: `a.b.c.d` is local exactly when
/// it lies in 10.0.0.0/8, 172.16.0.0/12, 192.168.0.0/16 (the private ranges)
/// or 127.0.0.0/8 (loopback), whatever `c`, `d` and the port; over IPv6 only
/// `::1` is local.
pub proof fn law_local_addresses(a: u8, b: u8, c: u8, d: u8, port: u16, v6: u128)
    ensures
        spec_is_local(SocketAddr { ip: IpAddr::V4(be32_value(a, b, c, d)), port }) <==> (a == 10 || (a
            == 172 && 16 <= b && b <= 31) || (a == 192 && b == 168) || a == 127),
        spec_is_local(SocketAddr { ip: IpAddr::V6(v6), port }) <==> v6 == 1,
{
    let x = be32_value(a, b, c, d);
    lemma_be32_bytes(a, b, c, d);
    assert(x / 0x100_0000 < 0x100);
    assert((x / 0x100_0000) as u8 == a);
    assert((x / 0x1_0000 % 0x100) as u8 == b);
}

} // verus!
