//! The versions of RIP.

use vstd::prelude::*;

use crate::utils::ibus::Protocol;
use crate::utils::net::{IpAddr, IpNetwork, Ipv4Addr, Ipv4Network, Ipv6Addr, Ipv6Network};

verus! {

/// A version of RIP: what it is called, and what its addresses are.
pub trait Version: Sized {
    /// An address.
    type Addr: Copy;

    /// A prefix.
    type Network: Copy;

    /// The protocol.
    spec fn spec_protocol() -> Protocol;

    /// The address, as one of either family.
    spec fn ip_addr(addr: Self::Addr) -> IpAddr;

    /// The prefix, as one of either family.
    spec fn ip_network(prefix: Self::Network) -> IpNetwork;

    /// The protocol.
    fn protocol() -> (r: Protocol)
        ensures
            r == Self::spec_protocol(),
    ;

    /// The address, as one of either family.
    fn to_ip_addr(addr: Self::Addr) -> (r: IpAddr)
        ensures
            r == Self::ip_addr(addr),
    ;

    /// The prefix, as one of either family.
    fn to_ip_network(prefix: Self::Network) -> (r: IpNetwork)
        ensures
            r == Self::ip_network(prefix),
    ;
}

/// RIPv2.
#[derive(Clone, Copy, Debug, PartialEq, Eq, Structural)]
pub struct Ripv2 {}

/// RIPng.
#[derive(Clone, Copy, Debug, PartialEq, Eq, Structural)]
pub struct Ripng {}

impl Version for Ripv2 {
    type Addr = Ipv4Addr;

    type Network = Ipv4Network;

    open spec fn spec_protocol() -> Protocol {
        Protocol::RIPV2
    }

    open spec fn ip_addr(addr: Ipv4Addr) -> IpAddr {
        IpAddr::V4(addr)
    }

    open spec fn ip_network(prefix: Ipv4Network) -> IpNetwork {
        IpNetwork::V4(prefix)
    }

    fn protocol() -> (r: Protocol) {
        Protocol::RIPV2
    }

    fn to_ip_addr(addr: Ipv4Addr) -> (r: IpAddr) {
        IpAddr::V4(addr)
    }

    fn to_ip_network(prefix: Ipv4Network) -> (r: IpNetwork) {
        IpNetwork::V4(prefix)
    }
}

impl Version for Ripng {
    type Addr = Ipv6Addr;

    type Network = Ipv6Network;

    open spec fn spec_protocol() -> Protocol {
        Protocol::RIPNG
    }

    open spec fn ip_addr(addr: Ipv6Addr) -> IpAddr {
        IpAddr::V6(addr)
    }

    open spec fn ip_network(prefix: Ipv6Network) -> IpNetwork {
        IpNetwork::V6(prefix)
    }

    fn protocol() -> (r: Protocol) {
        Protocol::RIPNG
    }

    fn to_ip_addr(addr: Ipv6Addr) -> (r: IpAddr) {
        IpAddr::V6(addr)
    }

    fn to_ip_network(prefix: Ipv6Network) -> (r: IpNetwork) {
        IpNetwork::V6(prefix)
    }
}

/// The versions keep to their families: RIPv2 has IPv4 routes, RIPng has IPv6
/// routes, and addresses and prefixes come through as they are.
pub proof fn lemma_families(
    v4: Ipv4Addr,
    net4: Ipv4Network,
    v6: Ipv6Addr,
    net6: Ipv6Network,
    protocols: (Protocol, Protocol),
    addrs: (IpAddr, IpAddr),
    nets: (IpNetwork, IpNetwork),
)
    requires
        call_ensures(Ripv2::protocol, (), protocols.0),
        call_ensures(Ripng::protocol, (), protocols.1),
        call_ensures(Ripv2::to_ip_addr, (v4,), addrs.0),
        call_ensures(Ripng::to_ip_addr, (v6,), addrs.1),
        call_ensures(Ripv2::to_ip_network, (net4,), nets.0),
        call_ensures(Ripng::to_ip_network, (net6,), nets.1),
    ensures
        protocols.0 == Protocol::RIPV2,
        protocols.1 == Protocol::RIPNG,
        addrs.0 matches IpAddr::V4(addr) && addr == v4,
        addrs.1 matches IpAddr::V6(addr) && addr == v6,
        nets.0 matches IpNetwork::V4(net) && net == net4,
        nets.1 matches IpNetwork::V6(net) && net == net6,
        Ripv2::spec_protocol() == Protocol::RIPV2,
        Ripng::spec_protocol() == Protocol::RIPNG,
        Ripv2::ip_addr(v4) == IpAddr::V4(v4),
        Ripng::ip_addr(v6) == IpAddr::V6(v6),
        Ripv2::ip_network(net4) == IpNetwork::V4(net4),
        Ripng::ip_network(net6) == IpNetwork::V6(net6),
{
}

} // verus!
