//! The IS-IS instance.

use std::time::Instant;

use bytes::Bytes;
use holo::isis::instance::{Instance, InstanceArenas, InstanceCounters, InstanceState};
use holo::isis::interface::{Interface, InterfaceCfg};
use holo::isis::messages::{
    Action, AdjHoldTimerMsg, AdjacencyKey, DisElectionMsg, Event, InstanceInactiveReason,
    InterfaceInactiveReason, InterfaceKey, LspDeleteMsg, LspEntryId, LspEntryKey, LspOriginateMsg,
    LspPurgeMsg, LspPurgeReason, LspRefreshMsg, NetRxPduMsg, ProtocolInputMsg, SendCsnpMsg,
    SendPsnpMsg,
};
use holo::isis::packet::error::DecodeError;
use holo::isis::packet::id::{LevelNumber, LevelType, SystemId};
use holo::utils::ibus::{AddressMsg, IbusMsg, InterfaceFlags, InterfaceUpdateMsg};
use holo::utils::net::{IpNetwork, Ipv4Addr, Ipv4Network, Ipv6Addr, Ipv6Network};

fn iface(name: &str, active: bool) -> Interface {
    let mut iface = Interface::new(name.to_string(), InterfaceCfg { passive: false });
    iface.state.active = active;
    iface
}

// An instance that may run, with three interfaces.
fn instance() -> Instance {
    let mut instance = Instance::new("test".to_string());
    instance.config.system_id = Some(SystemId { octets: [1; 6] });
    for (name, active) in [("eth0", true), ("eth1", false), ("eth2", true)] {
        assert!(instance.arenas.interfaces.add(iface(name, active)));
    }
    instance
}

fn stop(iface: usize) -> Action {
    Action::StopInterface { iface, reason: InterfaceInactiveReason::InstanceDown }
}

fn start() -> Vec<Action> {
    vec![
        Action::QuerySouthbound { iface: 0 },
        Action::QuerySouthbound { iface: 1 },
        Action::QuerySouthbound { iface: 2 },
        Action::OriginateLsps,
    ]
}

#[test]
fn a_new_instance_is_down() {
    let mut instance = Instance::new("main".to_string());
    assert_eq!(instance.name, "main");
    assert_eq!(instance.init(), Action::QueryRouterId);
    assert_eq!(instance.system.router_id, None);
    assert!(instance.config.enabled);
    assert!(!instance.is_active());
    assert!(instance.as_up().is_none());
    assert_eq!(instance.is_ready(), Err(InstanceInactiveReason::AdminDown));
    assert!(instance.update().is_empty());
    assert!(InstanceArenas::default().interfaces.list.is_empty());
}

#[test]
fn interfaces_have_names_of_their_own() {
    let mut instance = instance();
    assert!(!instance.arenas.interfaces.add(iface("eth1", true)));
    assert_eq!(instance.arenas.interfaces.list.len(), 3);
    assert_eq!(instance.arenas.interfaces.get_by_name(&"eth2".to_string()), Some(2));
    assert_eq!(instance.arenas.interfaces.get_by_name(&"eth3".to_string()), None);
}

#[test]
fn an_instance_starts_and_stops() {
    let mut instance = instance();
    assert_eq!(instance.is_ready(), Ok(()));
    assert_eq!(instance.update(), start());
    assert!(instance.is_active());
    let state = instance.state.as_ref().unwrap();
    assert_eq!(state.lsp_orig_pending, Some(LevelType::All));
    assert!(!state.lsp_orig_backoff);
    assert_eq!(state.counters.l1, InstanceCounters::default());
    assert!(state.discontinuity_time.secs > 0);
    assert!(instance.update().is_empty());

    instance.config.enabled = false;
    assert_eq!(instance.is_ready(), Err(InstanceInactiveReason::AdminDown));
    assert_eq!(instance.update(), [stop(0), stop(2)]);
    assert!(!instance.is_active());
    assert!(instance.arenas.interfaces.list.iter().all(|iface| !iface.state.active));
    assert!(instance.update().is_empty());
}

#[test]
fn a_reset_starts_over() {
    let mut instance = instance();
    assert!(instance.reset().is_empty());
    instance.update();
    instance.state.as_mut().unwrap().lsp_log_next_id = 7;
    let mut expected = vec![stop(0), stop(2)];
    expected.extend(start());
    assert_eq!(instance.reset(), expected);
    assert_eq!(instance.state.as_ref().unwrap().lsp_log_next_id, 0);
    instance.config.system_id = None;
    assert!(instance.reset().is_empty());
    assert!(!instance.is_active());
}

#[test]
fn shutdown_stops_the_interfaces() {
    let mut instance = instance();
    instance.update();
    assert_eq!(instance.shutdown(), [stop(0), stop(2)]);
}

#[test]
fn shutdown_of_an_instance_that_is_down() {
    assert!(instance().shutdown().is_empty());
}

#[test]
fn a_stop_ends_the_backoff_timer() {
    let mut instance = instance();
    instance.update();
    instance.state.as_mut().unwrap().lsp_orig_backoff = true;
    let timer = Action::StopLspOriginateTimer;
    let mut expected = vec![stop(0), stop(2), timer];
    expected.extend(start());
    assert_eq!(instance.reset(), expected);
    assert!(!instance.state.as_ref().unwrap().lsp_orig_backoff);
    instance.state.as_mut().unwrap().lsp_orig_backoff = true;
    assert_eq!(instance.shutdown(), [timer]);
}

#[test]
fn lsp_origination_is_rate_limited() {
    let mut instance = instance();
    instance.update();
    instance.state.as_mut().unwrap().lsp_orig_pending = None;
    let (mut up, _) = instance.as_up().unwrap();
    // Never originated before.
    assert_eq!(
        up.schedule_lsp_origination_after(LevelType::L1, 0),
        Some(Action::OriginateLsps)
    );
    assert_eq!(up.state.lsp_orig_pending, Some(LevelType::L1));
    up.state.lsp_orig_last = Some(Instant::now());
    // The minimum interval is over.
    assert_eq!(
        up.schedule_lsp_origination_after(LevelType::L1, 5),
        Some(Action::OriginateLsps)
    );
    assert!(!up.state.lsp_orig_backoff);
    // It is not: a timer starts, and levels add up.
    assert_eq!(
        up.schedule_lsp_origination_after(LevelType::L2, 4),
        Some(Action::StartLspOriginateTimer)
    );
    assert!(up.state.lsp_orig_backoff);
    assert_eq!(up.state.lsp_orig_pending, Some(LevelType::All));
    // While it runs, nothing happens.
    assert_eq!(up.schedule_lsp_origination_after(LevelType::L1, 100), None);
    assert_eq!(up.schedule_lsp_origination(LevelType::L1), None);
    up.state.lsp_orig_backoff = false;
    // Just originated.
    up.state.lsp_orig_last = Some(Instant::now());
    assert_eq!(
        up.schedule_lsp_origination(LevelType::L1),
        Some(Action::StartLspOriginateTimer)
    );
}

#[test]
fn a_fresh_state() {
    let state = InstanceState::new();
    assert!(state.lsp_orig_last.is_none());
    assert!(!state.lsp_orig_backoff);
    assert_eq!(state.lsp_orig_pending, None);
    assert_eq!(state.lsp_log_next_id, 0);
}

fn update_msg(ifname: &str) -> InterfaceUpdateMsg {
    InterfaceUpdateMsg {
        ifname: ifname.to_string(),
        ifindex: 4,
        mtu: 1500,
        flags: InterfaceFlags { loopback: false, operative: true, broadcast: true },
        mac_address: [9; 6],
    }
}

#[test]
fn interface_updates() {
    let mut instance = instance();
    // Ignored while the instance is down.
    assert!(instance.process_ibus_msg(IbusMsg::InterfaceUpd(update_msg("eth1"))).is_empty());
    assert_eq!(instance.arenas.interfaces.list[1].system.mtu, None);
    instance.update();
    assert_eq!(
        instance.process_ibus_msg(IbusMsg::InterfaceUpd(update_msg("eth1"))),
        [Action::UpdateInterface { iface: 1 }]
    );
    let system = &instance.arenas.interfaces.list[1].system;
    assert_eq!(system.mtu, Some(1500));
    assert_eq!(system.ifindex, Some(4));
    assert_eq!(system.mac_addr, Some([9; 6]));
    assert!(system.flags.operative);
    assert!(instance.process_ibus_msg(IbusMsg::InterfaceUpd(update_msg("eth9"))).is_empty());
    assert!(instance.process_ibus_msg(IbusMsg::Other).is_empty());
}

#[test]
fn router_id_updates() {
    let mut instance = instance();
    let router_id = Some(Ipv4Addr::from_bits(1));
    assert!(instance.process_ibus_msg(IbusMsg::RouterIdUpdate(router_id)).is_empty());
    assert_eq!(instance.system.router_id, router_id);
}

fn addr_msg(ifname: &str, bits: u32) -> AddressMsg {
    let net = Ipv4Network { addr: Ipv4Addr::from_bits(bits), prefix: 24 };
    AddressMsg { ifname: ifname.to_string(), addr: IpNetwork::V4(net) }
}

#[test]
fn addresses_come_and_go() {
    let mut instance = instance();
    let add = |bits| IbusMsg::InterfaceAddressAdd(addr_msg("eth0", bits));
    let del = |bits| IbusMsg::InterfaceAddressDel(addr_msg("eth0", bits));
    let follow = [
        Action::StartHelloTx { iface: 0, level_type: LevelType::All },
        Action::OriginateLsps,
    ];
    assert!(instance.process_ibus_msg(add(5)).is_empty());
    instance.update();
    assert_eq!(instance.process_ibus_msg(add(5)), follow);
    assert_eq!(instance.process_ibus_msg(add(3)), follow);
    assert_eq!(instance.process_ibus_msg(add(5)), follow);
    let bits = |instance: &Instance| {
        let list = &instance.arenas.interfaces.list[0].system.ipv4_addr_list.list;
        list.iter().map(|net| net.addr.bits).collect::<Vec<_>>()
    };
    assert_eq!(bits(&instance), [3, 5]);
    assert_eq!(instance.process_ibus_msg(del(5)), follow);
    assert_eq!(instance.process_ibus_msg(del(7)), follow);
    assert_eq!(bits(&instance), [3]);
    // An interface that is not active only keeps the address.
    let msg = IbusMsg::InterfaceAddressAdd(addr_msg("eth1", 8));
    assert!(instance.process_ibus_msg(msg).is_empty());
    assert_eq!(instance.arenas.interfaces.list[1].system.ipv4_addr_list.list.len(), 1);
    // No hellos go out on a passive interface.
    instance.arenas.interfaces.list[0].config.passive = true;
    assert_eq!(instance.process_ibus_msg(del(3)), [Action::OriginateLsps]);
    instance.arenas.interfaces.list[0].config.passive = false;
    instance.arenas.interfaces.list[0].system.flags.loopback = true;
    assert!(instance.arenas.interfaces.list[0].is_passive());
}

#[test]
fn ipv6_addresses_are_ordered_by_address_and_prefix() {
    let mut instance = instance();
    instance.update();
    let mut change = |added: bool, bits, prefix| {
        let net = Ipv6Network { addr: Ipv6Addr::from_bits(bits), prefix };
        let msg = AddressMsg { ifname: "eth2".to_string(), addr: IpNetwork::V6(net) };
        if added {
            instance.process_ibus_msg(IbusMsg::InterfaceAddressAdd(msg));
        } else {
            instance.process_ibus_msg(IbusMsg::InterfaceAddressDel(msg));
        }
        let list = &instance.arenas.interfaces.list[2].system.ipv6_addr_list.list;
        list.iter().map(|net| (net.addr.bits, net.prefix)).collect::<Vec<_>>()
    };
    change(true, 2, 64);
    change(true, 1, 128);
    change(true, 2, 48);
    assert_eq!(change(true, 1, 64), [(1, 64), (1, 128), (2, 48), (2, 64)]);
    assert_eq!(change(false, 2, 48), [(1, 64), (1, 128), (2, 64)]);
}

#[test]
fn messages_of_tasks() {
    let mut instance = instance();
    let iface_key = InterfaceKey { id: 1 };
    let adj_key = AdjacencyKey { id: 2 };
    let lse_key = LspEntryKey::Id(LspEntryId { id: 3 });
    let level = LevelNumber::L2;
    let originate = || ProtocolInputMsg::LspOriginate(LspOriginateMsg {});
    assert_eq!(instance.process_protocol_msg(originate()), None);
    instance.update();
    let event = |msg| instance.process_protocol_msg(msg).unwrap();
    assert_eq!(event(originate()), Event::LspOriginate);
    let bytes = Bytes::from_static(&[1]);
    assert_eq!(
        event(ProtocolInputMsg::NetRxPdu(NetRxPduMsg {
            iface_key,
            src: [5; 6],
            bytes: bytes.clone(),
            pdu: Err(DecodeError::IncompletePdu),
        })),
        Event::Pdu { iface_key, src: [5; 6], bytes, pdu: Err(DecodeError::IncompletePdu) }
    );
    assert_eq!(
        event(ProtocolInputMsg::AdjHoldTimer(AdjHoldTimerMsg::Broadcast {
            iface_key,
            adj_key,
            level
        })),
        Event::LanAdjHoldTimerExpiry { iface_key, adj_key, level }
    );
    assert_eq!(
        event(ProtocolInputMsg::AdjHoldTimer(AdjHoldTimerMsg::PointToPoint { iface_key })),
        Event::P2pAdjHoldTimerExpiry { iface_key }
    );
    assert_eq!(
        event(ProtocolInputMsg::DisElection(DisElectionMsg { iface_key, level })),
        Event::DisElection { iface_key, level }
    );
    assert_eq!(
        event(ProtocolInputMsg::SendPsnp(SendPsnpMsg { iface_key, level })),
        Event::SendPsnp { iface_key, level }
    );
    assert_eq!(
        event(ProtocolInputMsg::SendCsnp(SendCsnpMsg { iface_key, level })),
        Event::SendCsnp { iface_key, level }
    );
    let reason = LspPurgeReason::Expired;
    assert_eq!(
        event(ProtocolInputMsg::LspPurge(LspPurgeMsg::new(level, LspEntryId { id: 3 }, reason))),
        Event::LspPurge { level, lse_key, reason }
    );
    assert_eq!(
        event(ProtocolInputMsg::LspDelete(LspDeleteMsg { level, lse_key })),
        Event::LspDelete { level, lse_key }
    );
    assert_eq!(
        event(ProtocolInputMsg::LspRefresh(LspRefreshMsg::new(level, LspEntryId { id: 3 }))),
        Event::LspRefresh { level, lse_key }
    );
}
