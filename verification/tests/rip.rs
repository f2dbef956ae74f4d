//! RIP routes for the system.

use holo::rip::route::{Metric, Route, RouteType};
use holo::rip::southbound::tx::{route_install, route_uninstall};
use holo::rip::version::{Ripng, Ripv2};
use holo::utils::ibus::{IbusMsg, Nexthop, Protocol, RouteKeyMsg, RouteMsg};
use holo::utils::net::{IpAddr, IpNetwork, Ipv4Addr, Ipv4Network, Ipv6Addr, Ipv6Network};

fn route(route_type: RouteType) -> Route<Ripv2> {
    Route {
        prefix: Ipv4Network { addr: Ipv4Addr::from_bits(0x0A00_0000), prefix: 8 },
        ifindex: 3,
        nexthop: Some(Ipv4Addr::from_bits(0x0A00_0001)),
        metric: Metric { value: 4 },
        tag: 500,
        route_type,
    }
}

#[test]
fn learned_routes_are_installed() {
    let route = route(RouteType::Rip);
    assert_eq!(
        route_install(&route, 120),
        Some(IbusMsg::RouteIpAdd(RouteMsg {
            protocol: Protocol::RIPV2,
            prefix: IpNetwork::V4(route.prefix),
            distance: 120,
            metric: 4,
            tag: Some(500),
            nexthops: vec![Nexthop::Address {
                ifindex: 3,
                addr: IpAddr::V4(Ipv4Addr::from_bits(0x0A00_0001)),
                labels: vec![],
            }],
        }))
    );
    assert_eq!(
        route_uninstall(&route),
        Some(IbusMsg::RouteIpDel(RouteKeyMsg {
            protocol: Protocol::RIPV2,
            prefix: IpNetwork::V4(route.prefix),
        }))
    );
}

#[test]
fn connected_routes_are_not() {
    let mut route = route(RouteType::Connected);
    route.nexthop = None;
    assert_eq!(route_install(&route, 120), None);
    assert_eq!(route_uninstall(&route), None);
}

#[test]
fn ripng_routes() {
    let route: Route<Ripng> = Route {
        prefix: Ipv6Network { addr: Ipv6Addr::from_bits(1 << 127), prefix: 1 },
        ifindex: 1,
        nexthop: Some(Ipv6Addr::from_bits(2)),
        metric: Metric { value: 16 },
        tag: 0,
        route_type: RouteType::Rip,
    };
    match route_install(&route, 1) {
        Some(IbusMsg::RouteIpAdd(msg)) => {
            assert_eq!(msg.protocol, Protocol::RIPNG);
            assert_eq!(msg.prefix, IpNetwork::V6(route.prefix));
            assert_eq!(msg.metric, 16);
        }
        r => panic!("{:?}", r),
    }
}
