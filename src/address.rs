use vstd::prelude::*;

verus! {

/// An IP address, held as the integer that its octets spell in network order.
#[derive(Debug, Clone, Copy, PartialEq, Eq, Structural)]
pub enum IpAddr {
    V4(u32),
    V6(u128),
}

/// An IP address together with a TCP port.
#[derive(Debug, Clone, Copy, PartialEq, Eq, Structural)]
pub struct SockAddr {
    pub ip: IpAddr,
    pub port: u16,
}

/// A network endpoint: either a resolved socket address or a domain name
/// that still has to be resolved, each with a port.
#[derive(Debug, Clone)]
pub enum Address {
    SocketAddr(SockAddr),
    Domain(String, u16),
}

} // verus!
