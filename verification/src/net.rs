//! IPv4 socket addresses in the form `bind` and `connect` take them.

use vstd::prelude::*;

verus! {

/// The fields of a `sockaddr_in`: address family, port in network byte
/// order, and address.
#[derive(Copy, Clone, Debug)]
pub struct Ipv4SocketAddress {
    pub family: u16,
    pub port: u16,
    pub address: u32,
}

/// `x` with its two bytes exchanged.
pub open spec fn swap_bytes_u16(x: u16) -> int {
    (x % 256) * 256 + x / 256
}

/// `libc::htons`, which is `u16::to_be`: the port in network (big-endian)
/// byte order. That is the value itself on a big-endian machine and the value
/// with its bytes exchanged on a little-endian one; which one holds depends on
/// the machine, so the contract states the two outcomes and not which.
#[verifier::external_body]
fn htons(host: u16) -> (network: u16)
    ensures
        network == host || network == swap_bytes_u16(host),
{
    libc::htons(host)
}

/// `libc::AF_INET`, which libc defines as 2 on Linux.
#[verifier::external_body]
fn af_inet() -> (family: i32)
    ensures
        family == 2,
{
    libc::AF_INET
}

/// `libc::INADDR_ANY`, which libc defines as 0.
#[verifier::external_body]
fn inaddr_any() -> (address: u32)
    ensures
        address == 0,
{
    libc::INADDR_ANY
}

/// An IPv4 address with `port` (given in host order) and `address`.
pub fn socket_address(address: u32, port: u16) -> (a: Ipv4SocketAddress)
    ensures
        a.family == 2,
        a.address == address,
        a.port == port || a.port == swap_bytes_u16(port),
{
    let family = af_inet();
    Ipv4SocketAddress { family: family as u16, port: htons(port), address }
}

/// The address a server listens on: any interface, at `port`.
pub fn listening_address(port: u16) -> (a: Ipv4SocketAddress)
    ensures
        a.family == 2,
        a.address == 0,
        a.port == port || a.port == swap_bytes_u16(port),
{
    socket_address(inaddr_any(), port)
}

} // verus!
