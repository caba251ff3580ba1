//! IP and socket addresses.
use vstd::prelude::*;

use crate::table::Key;

verus! {

/// An IP address, by the number that its bits spell in network order.
#[derive(Clone, Copy, Debug, PartialEq, Eq, Hash, Structural)]
pub enum IpAddr {
    /// An IPv4 address.
    V4(u32),
    /// An IPv6 address.
    V6(u128),
}

/// An IP address together with a port.
#[derive(Clone, Copy, Debug, PartialEq, Eq, Hash, Structural)]
pub enum SocketAddr {
    /// An IPv4 address and a port.
    V4 { ip: u32, port: u16 },
    /// An IPv6 address and a port, with the flow information and the scope of the address.
    V6 { ip: u128, port: u16, flowinfo: u32, scope_id: u32 },
}

impl IpAddr {
    /// The address stands for no particular host: `0.0.0.0` or `::`.
    pub open spec fn unspecified(self) -> bool {
        match self {
            IpAddr::V4(bits) => bits == 0,
            IpAddr::V6(bits) => bits == 0,
        }
    }

    /// The address is a loopback address: one of `127.0.0.0/8`, or `::1`.
    pub open spec fn loopback(self) -> bool {
        match self {
            IpAddr::V4(bits) => 127 * 0x100_0000 <= bits < 128 * 0x100_0000,
            IpAddr::V6(bits) => bits == 1,
        }
    }

    /// Returns `true` for the unspecified addresses `0.0.0.0` and `::`.
    pub fn is_unspecified(&self) -> (b: bool)
        ensures
            b == self.unspecified(),
    {
        match self {
            IpAddr::V4(bits) => *bits == 0,
            IpAddr::V6(bits) => *bits == 0,
        }
    }

    /// Returns `true` for the loopback addresses: those of `127.0.0.0/8`, and `::1`.
    pub fn is_loopback(&self) -> (b: bool)
        ensures
            b == self.loopback(),
    {
        match self {
            IpAddr::V4(bits) => *bits / 0x100_0000 == 127,
            IpAddr::V6(bits) => *bits == 1,
        }
    }
}

/// The IPv4 socket address `a.b.c.d:port`.
pub open spec fn v4_addr(a: u8, b: u8, c: u8, d: u8, port: u16) -> SocketAddr {
    SocketAddr::V4 { ip: (a * 0x100_0000 + b * 0x1_0000 + c * 0x100 + d) as u32, port }
}

impl SocketAddr {
    /// The IP address.
    pub open spec fn spec_ip(self) -> IpAddr {
        match self {
            SocketAddr::V4 { ip, .. } => IpAddr::V4(ip),
            SocketAddr::V6 { ip, .. } => IpAddr::V6(ip),
        }
    }

    /// The port.
    pub open spec fn spec_port(self) -> u16 {
        match self {
            SocketAddr::V4 { port, .. } => port,
            SocketAddr::V6 { port, .. } => port,
        }
    }

    /// Makes the IPv4 socket address `a.b.c.d:port`.
    pub fn v4(a: u8, b: u8, c: u8, d: u8, port: u16) -> (addr: SocketAddr)
        ensures
            addr == v4_addr(a, b, c, d, port),
    {
        SocketAddr::V4 {
            ip: a as u32 * 0x100_0000 + b as u32 * 0x1_0000 + c as u32 * 0x100 + d as u32,
            port,
        }
    }

    /// Returns the IP address.
    pub fn ip(&self) -> (ip: IpAddr)
        ensures
            ip == self.spec_ip(),
    {
        match self {
            SocketAddr::V4 { ip, .. } => IpAddr::V4(*ip),
            SocketAddr::V6 { ip, .. } => IpAddr::V6(*ip),
        }
    }

    /// Returns the port.
    pub fn port(&self) -> (port: u16)
        ensures
            port == self.spec_port(),
    {
        match self {
            SocketAddr::V4 { port, .. } => *port,
            SocketAddr::V6 { port, .. } => *port,
        }
    }
}

impl Key for IpAddr {
    fn same(&self, other: &Self) -> (b: bool) {
        *self == *other
    }
}

impl Key for SocketAddr {
    fn same(&self, other: &Self) -> (b: bool) {
        *self == *other
    }
}

} // verus!
