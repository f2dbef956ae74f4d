//! What the system tells the instance.

use vstd::prelude::*;

use crate::isis::instance::{scheduled, scheduling_action, Instance, InstanceSys, InstanceUpView};
use crate::isis::interface::{lookup, Interface, InterfaceSys};
use crate::isis::messages::Action;
use crate::isis::packet::id::{LevelNumber, LevelType};
use crate::utils::clock::seconds_since;
use crate::utils::ibus::{AddressMsg, IbusMsg, InterfaceUpdateMsg};
use crate::utils::net::{IpNetwork, Ipv4Addr, Ipv4Network, Ipv6Network};

verus! {

/// The system has another Router ID, or none.
pub fn process_router_id_update(instance: &mut Instance, router_id: Option<Ipv4Addr>)
    ensures
        *final(instance) == (Instance { system: InstanceSys { router_id }, ..*old(instance) }),
{
    instance.system.router_id = router_id;
}

/// What an interface update does: an interface that is known to an instance
/// that is up takes the data over, and may have to be activated or
/// deactivated.
pub open spec fn iface_updated(
    a: Instance,
    msg: InterfaceUpdateMsg,
    b: Instance,
    actions: Seq<Action>,
) -> bool {
    match lookup(a.interfaces(), msg.ifname@) {
        Some(i) if a.state is Some => {
            let iface = a.interfaces()[i];
            &&& b.name == a.name
            &&& b.system == a.system
            &&& b.config == a.config
            &&& b.state == a.state
            &&& b.interfaces() == a.interfaces().update(
                i,
                Interface {
                    system: InterfaceSys {
                        flags: msg.flags,
                        mtu: Some(msg.mtu),
                        mac_addr: Some(msg.mac_address),
                        ifindex: Some(msg.ifindex),
                        ..iface.system
                    },
                    ..iface
                },
            )
            &&& actions == seq![Action::UpdateInterface { iface: i as usize }]
        },
        _ => b == a && actions == Seq::<Action>::empty(),
    }
}

/// Processes an interface update notification.
pub fn process_iface_update(instance: &mut Instance, msg: InterfaceUpdateMsg) -> (r: Vec<Action>)
    requires
        old(instance).wf(),
    ensures
        final(instance).wf(),
        iface_updated(*old(instance), msg, *final(instance), r@),
{
    let ghost l = instance.interfaces();
    let mut actions: Vec<Action> = Vec::new();
    let (up, arenas) = match instance.as_up() {
        Some(r) => r,
        None => return actions,
    };
    // Lookup interface.
    let iface_idx = match arenas.interfaces.get_by_name(&msg.ifname) {
        Some(i) => i,
        None => return actions,
    };
    // Update interface data.
    arenas.interfaces.list[iface_idx].system.flags = msg.flags;
    arenas.interfaces.list[iface_idx].system.mtu = Some(msg.mtu);
    arenas.interfaces.list[iface_idx].system.mac_addr = Some(msg.mac_address);
    if arenas.interfaces.list[iface_idx].system.ifindex != Some(msg.ifindex) {
        arenas.interfaces.update_ifindex(iface_idx, Some(msg.ifindex));
    }
    assert(arenas.interfaces.list@ =~= l.update(
        iface_idx as int,
        Interface {
            system: InterfaceSys {
                flags: msg.flags,
                mtu: Some(msg.mtu),
                mac_addr: Some(msg.mac_address),
                ifindex: Some(msg.ifindex),
                ..l[iface_idx as int].system
            },
            ..l[iface_idx as int]
        },
    ));
    // Check if IS-IS needs to be activated or deactivated on this interface.
    actions.push(Action::UpdateInterface { iface: iface_idx });
    assert(actions@ =~= seq![Action::UpdateInterface { iface: iface_idx }]);
    actions
}

/// At most one action.
pub open spec fn opt_action(o: Option<Action>) -> Seq<Action> {
    match o {
        Some(action) => seq![action],
        None => Seq::empty(),
    }
}

/// What an active interface with other addresses asks for: that hellos tell of
/// them, unless it is passive, and then what scheduling all LSPs asks for.
pub open spec fn readdress_actions(passive: bool, idx: int, scheduling: Option<Action>) -> Seq<
    Action,
> {
    let hello = if passive {
        Seq::empty()
    } else {
        seq![Action::StartHelloTx { iface: idx as usize, level_type: LevelType::All }]
    };
    hello + opt_action(scheduling)
}

/// Whether `b` is `a` with an address more or less.
pub open spec fn addr_list_changed(a: InterfaceSys, addr: IpNetwork, added: bool, b: InterfaceSys) -> bool {
    &&& b == (InterfaceSys {
        ipv4_addr_list: b.ipv4_addr_list,
        ipv6_addr_list: b.ipv6_addr_list,
        ..a
    })
    &&& match addr {
        IpNetwork::V4(net) => {
            &&& b.ipv4_addr_list@ == (if added {
                a.ipv4_addr_list@.insert(net)
            } else {
                a.ipv4_addr_list@.remove(net)
            })
            &&& b.ipv6_addr_list == a.ipv6_addr_list
        },
        IpNetwork::V6(net) => {
            &&& b.ipv6_addr_list@ == (if added {
                a.ipv6_addr_list@.insert(net)
            } else {
                a.ipv6_addr_list@.remove(net)
            })
            &&& b.ipv4_addr_list == a.ipv4_addr_list
        },
    }
}

/// What an address does that an interface gets or loses: an interface that is
/// known to an instance that is up takes it over, and if the interface is
/// active, hellos and LSPs have to follow.
pub open spec fn addr_changed(
    a: Instance,
    msg: AddressMsg,
    added: bool,
    b: Instance,
    actions: Seq<Action>,
) -> bool {
    match lookup(a.interfaces(), msg.ifname@) {
        Some(i) if a.state is Some => {
            let iface = a.interfaces()[i];
            &&& b.name == a.name
            &&& b.system == a.system
            &&& b.config == a.config
            &&& b.state is Some
            &&& b.interfaces() == a.interfaces().update(i, b.interfaces()[i])
            &&& b.interfaces()[i] == (Interface { system: b.interfaces()[i].system, ..iface })
            &&& addr_list_changed(iface.system, msg.addr, added, b.interfaces()[i].system)
            &&& if iface.state.active {
                &&& scheduled(a.state.unwrap(), LevelType::All, b.state.unwrap())
                &&& actions == readdress_actions(
                    iface.passive(),
                    i,
                    scheduling_action(a.state.unwrap(), b.state.unwrap()),
                )
            } else {
                b.state == a.state && actions == Seq::<Action>::empty()
            }
        },
        _ => b == a && actions == Seq::<Action>::empty(),
    }
}

/// Lets hellos and LSPs follow the addresses of an interface.
fn readdressed(up: &mut InstanceUpView<'_>, iface: &Interface, iface_idx: usize) -> (r: Vec<Action>)
    ensures
        *final(final(up).state) == *final(old(up).state),
        if iface.state.active {
            &&& scheduled(*old(up).state, LevelType::All, *final(up).state)
            &&& r@ == readdress_actions(
                iface.passive(),
                iface_idx as int,
                scheduling_action(*old(up).state, *final(up).state),
            )
        } else {
            *final(up).state == *old(up).state && r@ == Seq::<Action>::empty()
        },
{
    let mut actions: Vec<Action> = Vec::new();
    if iface.state.active {
        // Update Hello Tx task(s).
        if !iface.is_passive() {
            actions.push(Action::StartHelloTx { iface: iface_idx, level_type: LevelType::All });
        }
        let ghost hello = actions@;
        // Schedule LSP reorigination.
        let scheduling = up.schedule_lsp_origination(LevelType::All);
        if let Some(action) = scheduling {
            actions.push(action);
        }
        assert(actions@ =~= readdress_actions(iface.passive(), iface_idx as int, scheduling));
    }
    actions
}

/// Processes an interface address addition notification.
pub fn process_addr_add(instance: &mut Instance, msg: AddressMsg) -> (r: Vec<Action>)
    requires
        old(instance).wf(),
    ensures
        final(instance).wf(),
        addr_changed(*old(instance), msg, true, *final(instance), r@),
{
    let ghost l = instance.interfaces();
    let (mut up, arenas) = match instance.as_up() {
        Some(r) => r,
        None => return Vec::new(),
    };
    // Lookup interface.
    let iface_idx = match arenas.interfaces.get_by_name(&msg.ifname) {
        Some(i) => i,
        None => return Vec::new(),
    };
    // Add address to interface.
    match msg.addr {
        IpNetwork::V4(addr) => {
            let _ = arenas.interfaces.list[iface_idx].system.ipv4_addr_list.insert(addr);
        },
        IpNetwork::V6(addr) => {
            let _ = arenas.interfaces.list[iface_idx].system.ipv6_addr_list.insert(addr);
        },
    }
    assert(arenas.interfaces.list@ =~= l.update(
        iface_idx as int,
        arenas.interfaces.list@[iface_idx as int],
    ));
    readdressed(&mut up, &arenas.interfaces.list[iface_idx], iface_idx)
}

/// Processes an interface address deletion notification.
pub fn process_addr_del(instance: &mut Instance, msg: AddressMsg) -> (r: Vec<Action>)
    requires
        old(instance).wf(),
    ensures
        final(instance).wf(),
        addr_changed(*old(instance), msg, false, *final(instance), r@),
{
    let ghost l = instance.interfaces();
    let (mut up, arenas) = match instance.as_up() {
        Some(r) => r,
        None => return Vec::new(),
    };
    // Lookup interface.
    let iface_idx = match arenas.interfaces.get_by_name(&msg.ifname) {
        Some(i) => i,
        None => return Vec::new(),
    };
    // Remove address from interface.
    match msg.addr {
        IpNetwork::V4(addr) => {
            let _ = arenas.interfaces.list[iface_idx].system.ipv4_addr_list.remove(&addr);
        },
        IpNetwork::V6(addr) => {
            let _ = arenas.interfaces.list[iface_idx].system.ipv6_addr_list.remove(&addr);
        },
    }
    assert(arenas.interfaces.list@ =~= l.update(
        iface_idx as int,
        arenas.interfaces.list@[iface_idx as int],
    ));
    readdressed(&mut up, &arenas.interfaces.list[iface_idx], iface_idx)
}

/// An address that an interface gets and loses again leaves no trace, if it
/// was not there before.
pub proof fn lemma_addr_add_del(a: InterfaceSys, addr: IpNetwork, b: InterfaceSys, c: InterfaceSys)
    requires
        addr_list_changed(a, addr, true, b),
        addr_list_changed(b, addr, false, c),
        match addr {
            IpNetwork::V4(net) => !a.ipv4_addr_list@.contains(net),
            IpNetwork::V6(net) => !a.ipv6_addr_list@.contains(net),
        },
    ensures
        c.ipv4_addr_list@ == a.ipv4_addr_list@,
        c.ipv6_addr_list@ == a.ipv6_addr_list@,
{
    match addr {
        IpNetwork::V4(net) => {
            assert(a.ipv4_addr_list@.insert(net).remove(net) =~= a.ipv4_addr_list@);
        },
        IpNetwork::V6(net) => {
            assert(a.ipv6_addr_list@.insert(net).remove(net) =~= a.ipv6_addr_list@);
        },
    }
}

/// Whoever the instance hears it from: an update of an interface that it knows,
/// active or not, is taken over by that interface alone, and asks exactly once
/// that it be checked for activation or deactivation.
pub proof fn lemma_iface_update(
    a: Instance,
    msg: InterfaceUpdateMsg,
    b: Instance,
    r: Vec<Action>,
    i: int,
)
    requires
        (exists|x: &mut Instance| #[trigger]
            call_ensures(process_iface_update, (x, msg), r) && *x == a && *final(x) == b) || (
        exists|x: &mut Instance| #[trigger]
            call_ensures(Instance::process_ibus_msg, (x, IbusMsg::InterfaceUpd(msg)), r) && *x == a
                && *final(x) == b),
        a.wf(),
        a.state is Some,
        0 <= i < a.arenas.interfaces.list@.len(),
        a.arenas.interfaces.list@[i].name@ == msg.ifname@,
    ensures
        r@.len() == 1,
        r@[0] == (Action::UpdateInterface { iface: i as usize }),
        ({
            let old_iface = a.arenas.interfaces.list@[i];
            let iface = b.arenas.interfaces.list@[i];
            &&& iface.system.flags == msg.flags
            &&& iface.system.mtu == Some(msg.mtu)
            &&& iface.system.mac_addr == Some(msg.mac_address)
            &&& iface.system.ifindex == Some(msg.ifindex)
            &&& iface.system.ipv4_addr_list == old_iface.system.ipv4_addr_list
            &&& iface.system.ipv6_addr_list == old_iface.system.ipv6_addr_list
            &&& iface.name == old_iface.name
            &&& iface.config == old_iface.config
            &&& iface.state == old_iface.state
        }),
        b.arenas.interfaces.list@.len() == a.arenas.interfaces.list@.len(),
        forall|j: int|
            0 <= j < a.arenas.interfaces.list@.len() && j != i
                ==> #[trigger] b.arenas.interfaces.list@[j] == a.arenas.interfaces.list@[j],
        b.name == a.name,
        b.system == a.system,
        b.config == a.config,
        b.state == a.state,
{
}

/// Nothing comes of what is told of an interface to an instance that does not
/// know it, or that is down.
pub proof fn lemma_strangers_ignored(
    a: Instance,
    upd: InterfaceUpdateMsg,
    addr: AddressMsg,
    b: Instance,
    r: Vec<Action>,
)
    requires
        (exists|x: &mut Instance| #[trigger]
            call_ensures(process_iface_update, (x, upd), r) && *x == a && *final(x) == b) || (
        exists|x: &mut Instance| #[trigger]
            call_ensures(process_addr_add, (x, addr), r) && *x == a && *final(x) == b) || (
        exists|x: &mut Instance| #[trigger]
            call_ensures(process_addr_del, (x, addr), r) && *x == a && *final(x) == b) || (
        exists|x: &mut Instance| #[trigger]
            call_ensures(Instance::process_ibus_msg, (x, IbusMsg::InterfaceUpd(upd)), r) && *x == a
                && *final(x) == b) || (exists|x: &mut Instance| #[trigger]
            call_ensures(Instance::process_ibus_msg, (x, IbusMsg::InterfaceAddressAdd(addr)), r)
                && *x == a && *final(x) == b) || (exists|x: &mut Instance| #[trigger]
            call_ensures(Instance::process_ibus_msg, (x, IbusMsg::InterfaceAddressDel(addr)), r)
                && *x == a && *final(x) == b),
        upd.ifname@ == addr.ifname@,
        a.state is None || forall|i: int|
            0 <= i < a.arenas.interfaces.list@.len() ==> (
            #[trigger] a.arenas.interfaces.list@[i]).name@ != upd.ifname@,
    ensures
        b == a,
        r@.len() == 0,
{
}

/// An address that is added or deleted concerns the one interface of that name,
/// and only the list of its own family: afterwards it is there or not, and all
/// the others are as before. If the interface is active, hellos start over,
/// unless it is passive by configuration or a loopback, and both levels wait
/// for new LSPs: which come at once, or with the backoff timer, which starts if
/// the last ones are less than five seconds old and is never started twice. An
/// interface that is not active asks for nothing.
pub proof fn lemma_addr_update(
    a: Instance,
    msg: AddressMsg,
    added: bool,
    b: Instance,
    r: Vec<Action>,
    i: int,
)
    requires
        if added {
            (exists|x: &mut Instance| #[trigger]
                call_ensures(process_addr_add, (x, msg), r) && *x == a && *final(x) == b) || (
            exists|x: &mut Instance| #[trigger]
                call_ensures(Instance::process_ibus_msg, (x, IbusMsg::InterfaceAddressAdd(msg)), r)
                    && *x == a && *final(x) == b)
        } else {
            (exists|x: &mut Instance| #[trigger]
                call_ensures(process_addr_del, (x, msg), r) && *x == a && *final(x) == b) || (
            exists|x: &mut Instance| #[trigger]
                call_ensures(Instance::process_ibus_msg, (x, IbusMsg::InterfaceAddressDel(msg)), r)
                    && *x == a && *final(x) == b)
        },
        a.wf(),
        a.state is Some,
        0 <= i < a.arenas.interfaces.list@.len(),
        a.arenas.interfaces.list@[i].name@ == msg.ifname@,
    ensures
        ({
            let old_iface = a.arenas.interfaces.list@[i];
            let iface = b.arenas.interfaces.list@[i];
            &&& forall|net: Ipv4Network|
                #![trigger iface.system.ipv4_addr_list@.contains(net)]
                iface.system.ipv4_addr_list@.contains(net) <==> if msg.addr == IpNetwork::V4(net) {
                    added
                } else {
                    old_iface.system.ipv4_addr_list@.contains(net)
                }
            &&& forall|net: Ipv6Network|
                #![trigger iface.system.ipv6_addr_list@.contains(net)]
                iface.system.ipv6_addr_list@.contains(net) <==> if msg.addr == IpNetwork::V6(net) {
                    added
                } else {
                    old_iface.system.ipv6_addr_list@.contains(net)
                }
            &&& iface.system.flags == old_iface.system.flags
            &&& iface.system.mtu == old_iface.system.mtu
            &&& iface.system.mac_addr == old_iface.system.mac_addr
            &&& iface.system.ifindex == old_iface.system.ifindex
            &&& iface.name == old_iface.name
            &&& iface.config == old_iface.config
            &&& iface.state == old_iface.state
        }),
        b.arenas.interfaces.list@.len() == a.arenas.interfaces.list@.len(),
        forall|j: int|
            0 <= j < a.arenas.interfaces.list@.len() && j != i
                ==> #[trigger] b.arenas.interfaces.list@[j] == a.arenas.interfaces.list@[j],
        b.name == a.name,
        b.system == a.system,
        b.config == a.config,
        !a.arenas.interfaces.list@[i].state.active ==> b.state == a.state && r@.len() == 0,
        a.arenas.interfaces.list@[i].state.active ==> {
            let iface = a.arenas.interfaces.list@[i];
            let silent = iface.config.passive || iface.system.flags.loopback;
            let hellos: int = if silent {
                0
            } else {
                1
            };
            let before = a.state.unwrap();
            let after = b.state.unwrap();
            &&& b.state is Some
            &&& !silent ==> r@[0] == (Action::StartHelloTx {
                iface: i as usize,
                level_type: LevelType::All,
            })
            &&& if before.lsp_orig_backoff {
                r@.len() == hellos && after.lsp_orig_backoff
            } else {
                &&& r@.len() == hellos + 1
                &&& r@[hellos] == (if after.lsp_orig_backoff {
                    Action::StartLspOriginateTimer
                } else {
                    Action::OriginateLsps
                })
                &&& match before.lsp_orig_last {
                    Some(t) => exists|n: u64| #[trigger]
                        seconds_since(t, n) && (after.lsp_orig_backoff <==> n < 5),
                    None => !after.lsp_orig_backoff,
                }
            }
            &&& after.lsp_orig_pending matches Some(levels)
            &&& levels.has(LevelNumber::L1) && levels.has(LevelNumber::L2)
            &&& after.lsp_orig_last == before.lsp_orig_last
            &&& after.counters == before.counters
            &&& after.discontinuity_time == before.discontinuity_time
            &&& after.lsp_log_next_id == before.lsp_log_next_id
        },
{
}

/// Another Router ID of the system is all that changes, and nothing comes of
/// it.
pub proof fn lemma_router_id_update(
    a: Instance,
    router_id: Option<Ipv4Addr>,
    b: Instance,
    r: Vec<Action>,
)
    requires
        (exists|x: &mut Instance| #[trigger]
            call_ensures(process_router_id_update, (x, router_id), ()) && *x == a && *final(x) == b
                && r@.len() == 0) || (exists|x: &mut Instance| #[trigger]
            call_ensures(Instance::process_ibus_msg, (x, IbusMsg::RouterIdUpdate(router_id)), r)
                && *x == a && *final(x) == b),
    ensures
        b.system.router_id == router_id,
        b.name == a.name,
        b.config == a.config,
        b.state == a.state,
        b.arenas == a.arenas,
        r@.len() == 0,
{
}

} // verus!
