//! Messages exchanged with the other parts of the routing suite.

use vstd::prelude::*;

use crate::utils::net::{IpAddr, IpNetwork, Ipv4Addr};

verus! {

/// The protocol that a route comes from.
#[derive(Clone, Copy, Debug, PartialEq, Eq, Structural)]
pub enum Protocol {
    IGMP,
    ISIS,
    LDP,
    RIPV2,
    RIPNG,
}

/// What is known of an interface.
#[derive(Clone, Copy, Debug, PartialEq, Eq, Structural)]
pub struct InterfaceFlags {
    pub loopback: bool,
    pub operative: bool,
    pub broadcast: bool,
}

impl Default for InterfaceFlags {
    fn default() -> (r: InterfaceFlags)
        ensures
            r == (InterfaceFlags { loopback: false, operative: false, broadcast: false }),
    {
        InterfaceFlags { loopback: false, operative: false, broadcast: false }
    }
}

/// An interface came up or changed.
#[derive(Clone, Debug, PartialEq, Eq)]
pub struct InterfaceUpdateMsg {
    pub ifname: String,
    pub ifindex: u32,
    pub mtu: u32,
    pub flags: InterfaceFlags,
    pub mac_address: [u8; 6],
}

/// An interface got or lost an address.
#[derive(Clone, Debug, PartialEq, Eq)]
pub struct AddressMsg {
    pub ifname: String,
    pub addr: IpNetwork,
}

/// Where packets go next.
#[derive(Clone, Debug, PartialEq, Eq)]
pub enum Nexthop {
    Address { ifindex: u32, addr: IpAddr, labels: Vec<u32> },
}

/// A route to install. Its next hops are all different.
#[derive(Clone, Debug, PartialEq, Eq)]
pub struct RouteMsg {
    pub protocol: Protocol,
    pub prefix: IpNetwork,
    pub distance: u32,
    pub metric: u32,
    pub tag: Option<u32>,
    pub nexthops: Vec<Nexthop>,
}

/// A route to uninstall.
#[derive(Clone, Copy, Debug, PartialEq, Eq, Structural)]
pub struct RouteKeyMsg {
    pub protocol: Protocol,
    pub prefix: IpNetwork,
}

/// A message on the bus. Those that no protocol here reads or writes are all
/// one.
#[derive(Clone, Debug, PartialEq, Eq)]
pub enum IbusMsg {
    RouterIdUpdate(Option<Ipv4Addr>),
    InterfaceUpd(InterfaceUpdateMsg),
    InterfaceAddressAdd(AddressMsg),
    InterfaceAddressDel(AddressMsg),
    RouteIpAdd(RouteMsg),
    RouteIpDel(RouteKeyMsg),
    Other,
}

/// An interface of which nothing is known is neither up nor of any kind.
pub proof fn lemma_no_flags(r: InterfaceFlags)
    requires
        call_ensures(<InterfaceFlags as Default>::default, (), r),
    ensures
        !r.loopback && !r.operative && !r.broadcast,
{
}

} // verus!
