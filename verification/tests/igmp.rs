//! The IGMP instance.

use holo::igmp::instance::{
    process_ibus_msg, process_protocol_msg, Event, Instance, InstanceNet, NetRxPacketMsg,
    ProtocolInputMsg, Statistics,
};
use holo::utils::handle::{SocketHandle, TaskHandle};
use holo::utils::ibus::{IbusMsg, InterfaceFlags, InterfaceUpdateMsg};
use holo::utils::net::Ipv4Addr;

#[test]
fn init_brings_the_instance_up() {
    let mut instance = Instance::new("test".to_string());
    assert_eq!(instance.name, "test");
    assert!(instance.state.is_none());
    assert!(instance.as_up().is_none());
    let net = InstanceNet::new(SocketHandle { id: 3 }, TaskHandle { id: 4 });
    assert_eq!(instance.init(net), None);
    let state = instance.state.unwrap();
    assert_eq!(state.net.socket_rx, SocketHandle { id: 3 });
    assert_eq!(state.net.net_rx_task, TaskHandle { id: 4 });
    assert_eq!(state.statistics, Statistics::default());
    assert_eq!(state.statistics.errors.total, 0);
    assert_eq!(state.statistics.msgs_rcvd.query, 0);
    assert_eq!(state.statistics.discontinuity_time.secs, 0);
}

#[test]
fn sockets_and_tasks_are_given_back() {
    let net = |id| InstanceNet::new(SocketHandle { id }, TaskHandle { id: id + 1 });
    assert_eq!(Instance::new("test".to_string()).shutdown(), None);
    let mut instance = Instance::new("test".to_string());
    assert_eq!(instance.init(net(3)), None);
    assert_eq!(instance.init(net(5)), Some(net(3)));
    assert_eq!(instance.shutdown(), Some(net(5)));
}

#[test]
fn the_view_writes_through() {
    let mut instance = Instance::new("test".to_string());
    instance.init(InstanceNet::new(SocketHandle { id: 1 }, TaskHandle { id: 1 }));
    let (up, interfaces) = instance.as_up().unwrap();
    assert_eq!(up.name, "test");
    assert!(interfaces.list.is_empty());
    up.state.statistics.errors.checksum = 2;
    assert_eq!(instance.state.unwrap().statistics.errors.checksum, 2);
}

#[test]
fn only_interface_updates_are_of_interest() {
    let msg = InterfaceUpdateMsg {
        ifname: "eth0".to_string(),
        ifindex: 2,
        mtu: 1500,
        flags: InterfaceFlags::default(),
        mac_address: [0; 6],
    };
    assert_eq!(process_ibus_msg(IbusMsg::InterfaceUpd(msg.clone())), Some(msg));
    assert_eq!(process_ibus_msg(IbusMsg::RouterIdUpdate(None)), None);
}

#[test]
fn packets_are_passed_on() {
    let src = Ipv4Addr::from_bits(7);
    let msg = ProtocolInputMsg::NetRxPacket(NetRxPacketMsg { ifindex: 2, src, packet: "query" });
    assert_eq!(process_protocol_msg(msg), Event::Packet { ifindex: 2, src, packet: "query" });
}
