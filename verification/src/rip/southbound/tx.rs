//! What is told to the system.

use vstd::prelude::*;

use crate::rip::route::{Route, RouteType};
use crate::rip::version::Version;
use crate::utils::ibus::{IbusMsg, Nexthop, RouteKeyMsg, RouteMsg};

verus! {

/// Whether a message installs a route with one next hop, the one that the
/// route was learned from.
pub open spec fn installs<V: Version>(msg: RouteMsg, route: Route<V>, distance: u8) -> bool {
    &&& msg.protocol == V::spec_protocol()
    &&& msg.prefix == V::ip_network(route.prefix)
    &&& msg.distance == distance
    &&& msg.metric == route.metric.value
    &&& msg.tag == Some(route.tag as u32)
    &&& msg.nexthops@.len() == 1
    &&& match msg.nexthops@[0] {
        Nexthop::Address { ifindex, addr, labels } => {
            &&& ifindex == route.ifindex
            &&& addr == V::ip_addr(route.nexthop.unwrap())
            &&& labels@ == Seq::<u32>::empty()
        },
    }
}

/// Install RIP route in the RIB: gives the message that does it. A route that
/// was not learned by RIP needs none. One that was learned has a next hop.
pub fn route_install<V: Version>(route: &Route<V>, distance: u8) -> (r: Option<IbusMsg>)
    requires
        route.route_type == RouteType::Rip ==> route.nexthop is Some,
    ensures
        r is Some <==> route.route_type == RouteType::Rip,
        r matches Some(msg) ==> {
            &&& msg matches IbusMsg::RouteIpAdd(msg)
            &&& installs(msg, *route, distance)
        },
{
    if route.route_type != RouteType::Rip {
        return None;
    }

    // Fill-in message.
    let mut nexthops: Vec<Nexthop> = Vec::new();
    if let Some(nexthop) = route.nexthop {
        nexthops.push(
            Nexthop::Address {
                ifindex: route.ifindex,
                addr: V::to_ip_addr(nexthop),
                labels: Vec::new(),
            },
        );
    }
    let msg = RouteMsg {
        protocol: V::protocol(),
        prefix: V::to_ip_network(route.prefix),
        distance: distance as u32,
        metric: route.metric.get() as u32,
        tag: Some(route.tag as u32),
        nexthops,
    };
    Some(IbusMsg::RouteIpAdd(msg))
}

/// Uninstall RIP route from the RIB: gives the message that does it. A route
/// that was not learned by RIP needs none.
pub fn route_uninstall<V: Version>(route: &Route<V>) -> (r: Option<IbusMsg>)
    ensures
        r == (if route.route_type == RouteType::Rip {
            Some(
                IbusMsg::RouteIpDel(
                    RouteKeyMsg {
                        protocol: V::spec_protocol(),
                        prefix: V::ip_network(route.prefix),
                    },
                ),
            )
        } else {
            None
        }),
{
    if route.route_type != RouteType::Rip {
        return None;
    }

    // Fill-in message.
    let msg = RouteKeyMsg { protocol: V::protocol(), prefix: V::to_ip_network(route.prefix) };
    Some(IbusMsg::RouteIpDel(msg))
}

/// What is installed can be uninstalled: the messages name the same route.
pub proof fn lemma_install_uninstall<V: Version>(
    route: Route<V>,
    distance: u8,
    add: RouteMsg,
    del: RouteKeyMsg,
)
    requires
        installs(add, route, distance),
        del == (RouteKeyMsg {
            protocol: V::spec_protocol(),
            prefix: V::ip_network(route.prefix),
        }),
    ensures
        add.protocol == del.protocol,
        add.prefix == del.prefix,
{
}

/// Exactly the routes that RIP has learned are told to the system, to install
/// and to uninstall, and both messages name the same route, under the protocol
/// of the version.
pub proof fn lemma_only_learned_routes<V: Version>(
    route: Route<V>,
    distance: u8,
    add: Option<IbusMsg>,
    del: Option<IbusMsg>,
)
    requires
        call_ensures(route_install::<V>, (&route, distance), add),
        call_ensures(route_uninstall::<V>, (&route,), del),
    ensures
        add is Some <==> route.route_type == RouteType::Rip,
        del is Some <==> route.route_type == RouteType::Rip,
        add matches Some(msg) ==> {
            &&& msg matches IbusMsg::RouteIpAdd(add)
            &&& del matches Some(IbusMsg::RouteIpDel(del))
            &&& add.protocol == del.protocol && add.protocol == V::spec_protocol()
            &&& add.prefix == del.prefix && add.prefix == V::ip_network(route.prefix)
        },
{
}

/// A route is installed with its metric and tag, at the given distance, by way
/// of the one next hop that it was learned from, without labels.
pub proof fn lemma_installed<V: Version>(route: Route<V>, distance: u8, msg: RouteMsg)
    requires
        call_ensures(route_install::<V>, (&route, distance), Some(IbusMsg::RouteIpAdd(msg))),
        route.nexthop is Some,
    ensures
        msg.protocol == V::spec_protocol(),
        msg.prefix == V::ip_network(route.prefix),
        msg.distance == distance as u32,
        msg.metric == route.metric.value as u32,
        msg.tag == Some(route.tag as u32),
        msg.nexthops@.len() == 1,
        msg.nexthops@[0] matches Nexthop::Address { ifindex, addr, labels } && {
            &&& ifindex == route.ifindex
            &&& addr == V::ip_addr(route.nexthop.unwrap())
            &&& labels@.len() == 0
        },
{
}

} // verus!
