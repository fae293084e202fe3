//! Endpoints: an IPv4 address held as its 32-bit value, paired with a port.

use vstd::prelude::*;

verus! {

/// An IPv4 socket address: host address and port, both in host order.
#[derive(Clone, Copy, Debug, PartialEq, Eq, Structural)]
pub struct Endpoint {
    pub ip: u32,
    pub port: u16,
}

impl Endpoint {
    pub fn new(ip: u32, port: u16) -> (r: Endpoint)
        ensures
            r.ip == ip && r.port == port,
    {
        Endpoint { ip, port }
    }
}

/// The limited broadcast address 255.255.255.255.
pub open spec fn spec_is_broadcast(ip: u32) -> bool {
    ip == 0xffff_ffffu32
}

/// Class-D (multicast) addresses: 224.0.0.0 through 239.255.255.255.
pub open spec fn spec_is_multicast(ip: u32) -> bool {
    0xe000_0000u32 <= ip <= 0xefff_ffffu32
}

/// The unspecified address 0.0.0.0.
pub open spec fn spec_is_unspecified(ip: u32) -> bool {
    ip == 0u32
}

pub fn ip_is_broadcast(ip: u32) -> (r: bool)
    ensures
        r == spec_is_broadcast(ip),
{
    ip == 0xffff_ffff
}

pub fn ip_is_multicast(ip: u32) -> (r: bool)
    ensures
        r == spec_is_multicast(ip),
{
    0xe000_0000 <= ip && ip <= 0xefff_ffff
}

pub fn ip_is_unspecified(ip: u32) -> (r: bool)
    ensures
        r == spec_is_unspecified(ip),
{
    ip == 0
}

} // verus!
