//! Networking types and capability traits.
//!
//! The concrete address model lives in the submodules: [`ip`] holds the
//! address value types with their parser and canonical renderer, and
//! [`addr`] the socket-address types and the resolution protocol.  This
//! module declares the traits that let code stay generic over a network
//! stack.

pub mod addr;
pub mod ip;
pub mod parse;
pub mod text;

use vstd::prelude::*;

verus! {

/// An IP address value, whatever the stack: classification predicates
/// over a copyable, orderable, parseable value type.
pub trait IpAddr: core::hash::Hash + Ord + PartialOrd + PartialEq + Eq + Copy + Clone + core::fmt::Debug + From<
    [u8; 4],
> + From<[u8; 16]> + From<[u16; 8]> {
    /// Whether this is an IPv4 address.
    fn is_ipv4(&self) -> bool;

    /// Whether this is an IPv6 address.
    fn is_ipv6(&self) -> bool;

    /// Whether this is a loopback address.
    fn is_loopback(&self) -> bool;

    /// Whether this is a multicast address.
    fn is_multicast(&self) -> bool;

    /// Whether this is the unspecified address.
    fn is_unspecified(&self) -> bool;
}

/// An internet socket address of a stack: an IP address and a port.
pub trait SocketAddr: core::hash::Hash + Ord + PartialEq + PartialOrd + Eq + Copy + Clone + core::fmt::Debug {
    /// The stack's IP address type.
    type IpAddr: IpAddr;

    /// Creates a socket address from an address and a port.
    fn new(ip: Self::IpAddr, port: u16) -> Self;

    /// The IP address.
    fn ip(&self) -> Self::IpAddr;

    /// Changes the IP address.
    fn set_ip(&mut self, new_ip: Self::IpAddr);

    /// The port.
    fn port(&self) -> u16;

    /// Changes the port.
    fn set_port(&mut self, new_port: u16);

    /// Whether the address is IPv4.
    fn is_ipv4(&self) -> bool;

    /// Whether the address is IPv6.
    fn is_ipv6(&self) -> bool;
}

/// A networking stack: the family of types a concrete stack provides.
pub trait NetStack {
    /// An IP address.
    type IpAddr: IpAddr;
    /// An IP address and port.
    type SocketAddr: SocketAddr<IpAddr = Self::IpAddr>;
    /// Error type.
    type Error;
}

/// Retrieves the addresses associated with a hostname, for a stack.
///
/// The conversion may block the current thread while resolution is
/// performed, and the returned iterator may yield no values at all,
/// depending on the outcome of that resolution.
pub trait ToSocketAddrs<N: NetStack> {
    /// An iterator over addresses and ports.
    type Iter: Iterator<Item = N::SocketAddr>;

    /// Converts this object to an iterator of resolved socket addresses.
    fn to_socket_addrs(&self) -> Result<Self::Iter, N::Error>;
}

/// A socket that can join and leave multicast groups.
pub trait MulticastSocket<N: NetStack> {
    /// Attempts to join the given multicast group.
    fn join_multicast(&self, addr: N::IpAddr) -> Result<(), N::Error>;

    /// Attempts to leave the given multicast group.
    fn leave_multicast(&self, addr: N::IpAddr) -> Result<(), N::Error>;
}

} // verus!
