//! Addresses as the BPF programs compare them: an IPv4 address as the
//! 32-bit number whose bytes in memory are its octets.
use vstd::prelude::*;

verus! {

/// An IP address.
#[derive(Clone, Copy, Debug, PartialEq, Eq)]
pub enum IpAddress {
    /// An IPv4 address, by its octets.
    V4([u8; 4]),
    /// An IPv6 address, by its segments.
    V6([u16; 8]),
}

/// A socket address: an IP address and a port.
#[derive(Clone, Copy, Debug, PartialEq, Eq)]
pub struct SocketAddress {
    pub ip: IpAddress,
    pub port: u16,
}

/// Only IPv4 addresses have a 32-bit representation.
#[derive(Clone, Copy, Debug, PartialEq, Eq, Structural)]
pub struct UnsupportedAddressFamily;

/// The number whose little-endian bytes are `b`.
pub open spec fn u32_from_le(b: Seq<u8>) -> int {
    b[0] + 256 * b[1] + 65536 * b[2] + 16777216 * b[3]
}

/// The number whose big-endian bytes are `b`.
pub open spec fn u32_from_be(b: Seq<u8>) -> int {
    b[3] + 256 * b[2] + 65536 * b[1] + 16777216 * b[0]
}

/// `u32::from_ne_bytes`: the number whose bytes in the machine's own order
/// are `b`. Claimed: the result is the little-endian or the big-endian
/// reading of `b`; which one depends on the machine and is not stated.
#[verifier::external_body]
pub(crate) fn u32_from_ne_bytes(b: [u8; 4]) -> (r: u32)
    ensures
        r == u32_from_le(b@) || r == u32_from_be(b@),
{
    u32::from_ne_bytes(b)
}

/// Conversion into the 32-bit representation of an IPv4 address.
pub trait TryIntoRawOctets {
    /// The octets of the IPv4 address this stands for, if it is one.
    spec fn ipv4_octets(&self) -> Option<Seq<u8>>;

    /// Returns the number whose bytes in memory, in the machine's own byte
    /// order, are the octets of the address; fails on anything but IPv4.
    fn try_into_ne_octets(&self) -> (r: Result<u32, UnsupportedAddressFamily>)
        ensures
            match self.ipv4_octets() {
                Some(o) => r matches Ok(v) && (v == u32_from_le(o) || v == u32_from_be(o)),
                None => r is Err,
            },
    ;
}

impl TryIntoRawOctets for IpAddress {
    open spec fn ipv4_octets(&self) -> Option<Seq<u8>> {
        match self {
            IpAddress::V4(o) => Some(o@),
            IpAddress::V6(_) => None,
        }
    }

    fn try_into_ne_octets(&self) -> (r: Result<u32, UnsupportedAddressFamily>) {
        match self {
            IpAddress::V4(o) => Ok(u32_from_ne_bytes(*o)),
            IpAddress::V6(_) => Err(UnsupportedAddressFamily),
        }
    }
}

impl TryIntoRawOctets for SocketAddress {
    open spec fn ipv4_octets(&self) -> Option<Seq<u8>> {
        self.ip.ipv4_octets()
    }

    fn try_into_ne_octets(&self) -> (r: Result<u32, UnsupportedAddressFamily>) {
        self.ip.try_into_ne_octets()
    }
}

} // verus!
