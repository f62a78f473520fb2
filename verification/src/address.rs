//! Socket addresses as plain values.

use vstd::prelude::*;

verus! {

/// An IPv4 address and a port. The address is the number that its four octets spell, the first
/// octet in the highest byte.
#[derive(Clone, Copy, PartialEq, Eq, Hash, Debug, Structural)]
pub struct SocketAddrV4 {
    pub ip: u32,
    pub port: u16,
}

/// An IPv6 address, a port, a flow label and a scope. The address is the number that its sixteen
/// octets spell, the first octet in the highest byte.
#[derive(Clone, Copy, PartialEq, Eq, Hash, Debug, Structural)]
pub struct SocketAddrV6 {
    pub ip: u128,
    pub port: u16,
    pub flowinfo: u32,
    pub scope_id: u32,
}

/// A socket address.
#[derive(Clone, Copy, PartialEq, Eq, Hash, Debug, Structural)]
pub enum SocketAddr {
    V4(SocketAddrV4),
    V6(SocketAddrV6),
}

/// The IPv4 address that stands for no address in particular, 0.0.0.0.
pub const UNSPECIFIED: u32 = 0;

/// Whether an IPv4 address lies in 224.0.0.0/4, the block of multicast addresses: its first octet
/// is one of 224 to 239.
pub open spec fn is_multicast_ip(ip: u32) -> bool {
    224 <= ip / 0x100_0000 <= 239
}

impl SocketAddrV4 {
    /// Returns whether the address is a multicast address.
    pub fn is_multicast(&self) -> (multicast: bool)
        ensures
            multicast == is_multicast_ip(self.ip),
    {
        0xe000_0000 <= self.ip && self.ip <= 0xefff_ffff
    }
}

/// An address is a multicast address exactly where its first octet is one of 224 to 239, whatever
/// the other three octets spell.
pub proof fn law_multicast(addr: SocketAddrV4, first: u32, others: u32, multicast: bool)
    requires
        call_ensures(SocketAddrV4::is_multicast, (&addr,), multicast),
        first <= 255,
        others < 0x100_0000,
        addr.ip == first * 0x100_0000 + others,
    ensures
        multicast <==> 224 <= first <= 239,
{
}

} // verus!
