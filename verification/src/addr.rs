//! A plain-value model of a socket address, as the engine compares and
//! stores them. The transport layer converts between this and its own
//! address type at the boundary.

use vstd::prelude::*;

verus! {

/// A socket address as plain values: the IP as an integer (an IPv4
/// address in the low 32 bits when `is_v6` is clear), and the port.
#[derive(Debug, PartialEq, Eq, Structural, Clone, Copy)]
pub struct SocketAddress {
    pub is_v6: bool,
    pub ip: u128,
    pub port: u16,
}

/// The integer value of an IPv4 address given by its octets.
pub open spec fn spec_v4_ip(o0: u8, o1: u8, o2: u8, o3: u8) -> u128 {
    (o0 * 0x1000000 + o1 * 0x10000 + o2 * 256 + o3) as u128
}

impl SocketAddress {
    /// An IPv4 address from its four octets and a port.
    pub fn v4(o0: u8, o1: u8, o2: u8, o3: u8, port: u16) -> (r: Self)
        ensures
            r == (SocketAddress { is_v6: false, ip: spec_v4_ip(o0, o1, o2, o3), port }),
    {
        SocketAddress {
            is_v6: false,
            ip: (o0 as u128) * 0x1000000 + (o1 as u128) * 0x10000 + (o2 as u128) * 256 + (
            o3 as u128),
            port,
        }
    }

    /// The null sentinel `0.0.0.0:0` that marks an unused correlation
    /// slot.
    pub fn null() -> (r: Self)
        ensures
            r == spec_null_address(),
    {
        SocketAddress { is_v6: false, ip: 0, port: 0 }
    }

    /// Whether this is the null sentinel.
    pub fn is_null(&self) -> (r: bool)
        ensures
            r == (*self == spec_null_address()),
    {
        !self.is_v6 && self.ip == 0 && self.port == 0
    }
}

/// The null sentinel `0.0.0.0:0`.
pub open spec fn spec_null_address() -> SocketAddress {
    SocketAddress { is_v6: false, ip: 0, port: 0 }
}

} // verus!
