//! Socket addresses.

use crate::bytes::{be_bytes, push_be};
use vstd::prelude::*;

verus! {

/// An IPv4 address, as the number that its four octets spell in network order.
#[derive(Clone, Copy, Debug, PartialEq, Eq, Structural, Hash)]
pub struct Ipv4Addr {
    pub bits: u32,
}

/// An IPv6 address, as the number that its sixteen octets spell in network
/// order.
#[derive(Clone, Copy, Debug, PartialEq, Eq, Structural, Hash)]
pub struct Ipv6Addr {
    pub bits: u128,
}

#[derive(Clone, Copy, Debug, PartialEq, Eq, Structural, Hash)]
pub enum IpAddr {
    V4(Ipv4Addr),
    V6(Ipv6Addr),
}

#[derive(Clone, Copy, Debug, PartialEq, Eq, Structural, Hash)]
pub struct SocketAddrV4 {
    pub ip: Ipv4Addr,
    pub port: u16,
}

#[derive(Clone, Copy, Debug, PartialEq, Eq, Structural, Hash)]
pub struct SocketAddrV6 {
    pub ip: Ipv6Addr,
    pub port: u16,
    pub flowinfo: u32,
    pub scope_id: u32,
}

/// An IP address and a port; for IPv6 also the flow label and the zone.
#[derive(Clone, Copy, Debug, PartialEq, Eq, Structural, Hash)]
pub enum SocketAddr {
    V4(SocketAddrV4),
    V6(SocketAddrV6),
}

impl Ipv4Addr {
    /// The address `a.b.c.d`.
    pub fn new(a: u8, b: u8, c: u8, d: u8) -> (r: Ipv4Addr)
        ensures
            r.bits == a * 0x100_0000 + b * 0x1_0000 + c * 0x100 + d,
    {
        Ipv4Addr {
            bits: a as u32 * 0x100_0000 + b as u32 * 0x1_0000 + c as u32 * 0x100 + d as u32,
        }
    }

    /// The IPv6 address `::ffff:a.b.c.d` that stands for this one.
    pub fn to_ipv6_mapped(self) -> (r: Ipv6Addr)
        ensures
            r == mapped(self),
    {
        Ipv6Addr { bits: 0xffff_0000_0000 + self.bits as u128 }
    }
}

/// The IPv6 address that stands for an IPv4 address.
pub open spec fn mapped(ip: Ipv4Addr) -> Ipv6Addr {
    Ipv6Addr { bits: (0xffff_0000_0000 + ip.bits) as u128 }
}

impl IpAddr {
    /// The address's octets in network order.
    pub open spec fn octets(self) -> Seq<u8> {
        match self {
            IpAddr::V4(v4) => be_bytes(v4.bits as nat, 4),
            IpAddr::V6(v6) => be_bytes(v6.bits as nat, 16),
        }
    }

    /// `0.0.0.0` or `::`.
    pub open spec fn unspecified(self) -> bool {
        match self {
            IpAddr::V4(v4) => v4.bits == 0,
            IpAddr::V6(v6) => v6.bits == 0,
        }
    }

    pub fn is_unspecified(&self) -> (r: bool)
        ensures
            r == self.unspecified(),
    {
        match self {
            IpAddr::V4(v4) => v4.bits == 0,
            IpAddr::V6(v6) => v6.bits == 0,
        }
    }

    /// Appends the address's octets in network order.
    pub fn push_octets(&self, out: &mut Vec<u8>)
        ensures
            final(out)@ == old(out)@ + self.octets(),
    {
        match self {
            IpAddr::V4(v4) => push_be(out, v4.bits as u128, 4),
            IpAddr::V6(v6) => push_be(out, v6.bits, 16),
        }
    }
}

/// The address `127.0.0.1`, or `::1` for IPv6.
pub open spec fn loopback_like(ip: IpAddr) -> IpAddr {
    match ip {
        IpAddr::V4(_) => IpAddr::V4(Ipv4Addr { bits: 0x7f00_0001 }),
        IpAddr::V6(_) => IpAddr::V6(Ipv6Addr { bits: 1 }),
    }
}

impl SocketAddr {
    /// The socket address of `ip` and `port`, without flow label or zone.
    pub open spec fn of(ip: IpAddr, port: u16) -> SocketAddr {
        match ip {
            IpAddr::V4(ip) => SocketAddr::V4(SocketAddrV4 { ip, port }),
            IpAddr::V6(ip) => SocketAddr::V6(SocketAddrV6 { ip, port, flowinfo: 0, scope_id: 0 }),
        }
    }

    pub open spec fn ip_part(self) -> IpAddr {
        match self {
            SocketAddr::V4(a) => IpAddr::V4(a.ip),
            SocketAddr::V6(a) => IpAddr::V6(a.ip),
        }
    }

    pub open spec fn port_part(self) -> u16 {
        match self {
            SocketAddr::V4(a) => a.port,
            SocketAddr::V6(a) => a.port,
        }
    }

    pub fn new(ip: IpAddr, port: u16) -> (r: SocketAddr)
        ensures
            r == SocketAddr::of(ip, port),
    {
        match ip {
            IpAddr::V4(ip) => SocketAddr::V4(SocketAddrV4 { ip, port }),
            IpAddr::V6(ip) => SocketAddr::V6(SocketAddrV6 { ip, port, flowinfo: 0, scope_id: 0 }),
        }
    }

    pub fn ip(&self) -> (r: IpAddr)
        ensures
            r == self.ip_part(),
    {
        match self {
            SocketAddr::V4(a) => IpAddr::V4(a.ip),
            SocketAddr::V6(a) => IpAddr::V6(a.ip),
        }
    }

    pub fn port(&self) -> (r: u16)
        ensures
            r == self.port_part(),
    {
        match self {
            SocketAddr::V4(a) => a.port,
            SocketAddr::V6(a) => a.port,
        }
    }
}

} // verus!
