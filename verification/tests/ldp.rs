//! LDP interfaces.

use holo::ldp::instance::{Adjacency, InstanceIpv4State, InstanceState, InstanceUp};
use holo::ldp::interface::{
    Action, Interface, InterfaceCfg, InterfaceId, InterfaceInactiveReason, InterfaceIpv4Cfg,
    InterfaceState, IoError, StatusCode, Update,
};
use holo::ldp::packet::{TlvConfigSeqNo, TlvIpv4TransAddr};
use holo::utils::handle::{SocketHandle, TaskHandle};
use holo::utils::net::{IpAddr, Ipv4Addr, Ipv4Network, Ipv6Addr, Ipv6Network};

fn v4(bits: u32) -> Ipv4Addr {
    Ipv4Addr::from_bits(bits)
}

fn made() -> InterfaceState {
    InterfaceState {
        disc_socket: SocketHandle { id: 1 },
        hello_interval_task: TaskHandle { id: 2 },
    }
}

// An interface that may be active.
fn ready(id: u32) -> Interface {
    let mut iface = Interface::new(InterfaceId { id }, "eth0".to_string());
    iface.config.ipv4 = Some(InterfaceIpv4Cfg::default());
    iface.system.operative = true;
    iface.system.ifindex = Some(40 + id);
    iface
        .system
        .ipv4_addr_list
        .insert(Ipv4Network { addr: v4(0x0A00_0005), prefix: 24 });
    iface
}

fn instance(interfaces: Vec<Interface>, adjacencies: Vec<Adjacency>) -> InstanceUp {
    InstanceUp {
        interfaces,
        state: InstanceState {
            ipv4: InstanceIpv4State { trans_addr: v4(9), adjacencies },
            cfg_seqno: 3,
        },
    }
}

#[test]
fn defaults() {
    let cfg = InterfaceCfg::default();
    assert_eq!((cfg.hello_holdtime, cfg.hello_interval, cfg.ipv4), (15, 5, None));
    assert!(InterfaceIpv4Cfg::default().enabled);
    let iface = Interface::new(InterfaceId { id: 1 }, "eth0".to_string());
    assert_eq!(iface.name, "eth0");
    assert!(!iface.is_active());
    assert!(!iface.system.operative);
}

#[test]
fn what_keeps_an_interface_down() {
    let mut iface = ready(1);
    assert_eq!(iface.is_ready(), Ok(()));
    iface.system.ipv4_addr_list.list.clear();
    assert_eq!(iface.is_ready(), Err(InterfaceInactiveReason::MissingIpAddress));
    iface.system.ifindex = None;
    assert_eq!(iface.is_ready(), Err(InterfaceInactiveReason::MissingIfindex));
    iface.system.operative = false;
    assert_eq!(iface.is_ready(), Err(InterfaceInactiveReason::OperationalDown));
    iface.config.ipv4 = Some(InterfaceIpv4Cfg { enabled: false });
    assert_eq!(iface.is_ready(), Err(InterfaceInactiveReason::AdminDown));
    iface.config.ipv4 = None;
    assert_eq!(iface.is_ready(), Err(InterfaceInactiveReason::AdminDown));
}

#[test]
fn an_interface_starts() {
    let mut up = instance(vec![ready(1)], vec![]);
    assert!(matches!(Interface::update(&mut up, 0), Update::Start));
    assert!(!up.interfaces[0].is_active());
    let iface = &mut up.interfaces[0];
    assert_eq!(iface.system.join_multicast_ipv4(), (v4(0xE000_0002), 41));
    assert_eq!(iface.next_hello(7), None);
    assert_eq!(iface.start(Err(IoError::UdpSocketError)), Err(IoError::UdpSocketError));
    assert!(!iface.is_active());
    assert_eq!(iface.start(Ok(made())), Ok(vec![]));
    assert!(iface.is_active());
    assert_eq!(iface.next_hello(7), Some(7));
    let before = made().hello_interval_task;
    assert_eq!(
        iface.sync_hello_tx(TaskHandle { id: 8 }),
        Action::StopTask { task: before }
    );
    let state = iface.state.unwrap();
    assert_eq!(state.hello_interval_task, TaskHandle { id: 8 });
    assert_eq!(state.disc_socket, SocketHandle { id: 1 });
    assert!(matches!(Interface::update(&mut up, 0), Update::Keep));
}

#[test]
fn a_second_start_lets_go_of_the_first() {
    let mut iface = ready(1);
    iface.start(Ok(made())).unwrap();
    let other = InterfaceState {
        disc_socket: SocketHandle { id: 11 },
        hello_interval_task: TaskHandle { id: 12 },
    };
    assert_eq!(
        iface.start(Ok(other)),
        Ok(vec![
            Action::CloseSocket { socket: made().disc_socket },
            Action::StopTask { task: made().hello_interval_task },
        ])
    );
    assert_eq!(iface.state, Some(other));
}

#[test]
fn an_interface_stops_with_its_adjacencies() {
    let adj = |id, bits| Adjacency { iface_id: InterfaceId { id }, source: v4(bits) };
    let mut first = ready(1);
    first.start(Ok(made())).unwrap();
    first.system.operative = false;
    let mut up = instance(vec![first, ready(2)], vec![adj(1, 1), adj(2, 2), adj(1, 3)]);
    let delete = |adjacency| Action::DeleteAdjacency { adjacency, status: StatusCode::Shutdown };
    match Interface::update(&mut up, 0) {
        Update::Stopped(reason, actions) => {
            assert_eq!(reason, InterfaceInactiveReason::OperationalDown);
            assert_eq!(
                actions,
                [
                    Action::LeaveMulticast { group: v4(0xE000_0002), ifindex: 41 },
                    Action::CloseSocket { socket: made().disc_socket },
                    Action::StopTask { task: made().hello_interval_task },
                    delete(adj(1, 1)),
                    delete(adj(1, 3)),
                ]
            );
        }
        r => panic!("{:?}", r),
    }
    assert!(!up.interfaces[0].is_active());
    assert_eq!(up.state.ipv4.adjacencies, [adj(2, 2)]);
    assert!(matches!(Interface::update(&mut up, 0), Update::Keep));
}

#[test]
fn hellos() {
    let mut iface = ready(1);
    iface.config.hello_holdtime = 30;
    let up = instance(vec![], vec![]);
    let hello = iface.generate_hello(&up.state);
    assert_eq!(hello.msg_id, 0);
    assert_eq!(hello.params.holdtime, 30);
    assert!(hello.params.flags.gtsm && !hello.params.flags.targeted);
    assert_eq!(hello.ipv4_addr, Some(TlvIpv4TransAddr(v4(9))));
    assert_eq!(hello.ipv6_addr, None);
    assert_eq!(hello.cfg_seqno, Some(TlvConfigSeqNo(3)));
    assert_eq!(hello.dual_stack, None);
    let pdu = Interface::hello_pdu(v4(1), 77, hello);
    assert_eq!((pdu.lsr_id, pdu.lspace_id), (v4(1), 0));
    assert_eq!(pdu.messages.len(), 1);
    assert_eq!(pdu.messages[0].msg_id, 77);
    assert_eq!(pdu.messages[0].params, hello.params);
}

#[test]
fn adjacency_hold_times() {
    let mut iface = ready(1);
    iface.config.hello_holdtime = 30;
    assert_eq!(iface.calculate_adj_holdtime(0), 15);
    assert_eq!(iface.calculate_adj_holdtime(20), 20);
    assert_eq!(iface.calculate_adj_holdtime(45), 30);
    iface.config.hello_holdtime = 10;
    assert_eq!(iface.calculate_adj_holdtime(0), 10);
}

#[test]
fn subnets_and_local_address() {
    let mut iface = ready(1);
    let sys = &mut iface.system;
    assert!(sys.contains_addr(&IpAddr::V4(v4(0x0A00_00FE))));
    assert!(!sys.contains_addr(&IpAddr::V4(v4(0x0A00_01FE))));
    assert!(!sys.contains_addr(&IpAddr::V6(Ipv6Addr::from_bits(1))));
    sys.ipv6_addr_list
        .insert(Ipv6Network { addr: Ipv6Addr::from_bits(0), prefix: 127 });
    assert!(sys.contains_addr(&IpAddr::V6(Ipv6Addr::from_bits(1))));
    assert!(!sys.contains_addr(&IpAddr::V6(Ipv6Addr::from_bits(2))));
    assert!(sys.ipv4_addr_list.insert(Ipv4Network { addr: v4(6), prefix: 8 }));
    assert!(!sys.ipv4_addr_list.insert(Ipv4Network { addr: v4(6), prefix: 8 }));
    assert_eq!(sys.local_ipv4_addr(), IpAddr::V4(v4(6)));
    assert!(sys.ipv4_addr_list.remove(&Ipv4Network { addr: v4(6), prefix: 8 }));
    assert!(!sys.ipv4_addr_list.remove(&Ipv4Network { addr: v4(6), prefix: 8 }));
    assert_eq!(sys.local_ipv4_addr(), IpAddr::V4(v4(0x0A00_0005)));
}
