//! LDP interfaces.

use vstd::prelude::*;

use crate::ldp::instance::{Adjacency, InstanceIpv4State, InstanceState, InstanceUp};
use crate::ldp::packet::{
    HelloFlags, HelloMsg, Pdu, TlvCommonHelloParams, TlvConfigSeqNo, TlvIpv4TransAddr,
};
use crate::utils::addr_set::{AddrSet, Ranked};
use crate::utils::handle::{SocketHandle, TaskHandle};
use crate::utils::net::{IpAddr, Ipv4Addr, Ipv4Network, Ipv6Addr, Ipv6Network};

verus! {

/// The hold time that stands for a neighbor's hold time of zero.
pub const DFLT_ADJ_HOLDTIME: u16 = 15;

/// The hold time of hellos, unless configured.
pub const DFLT_HELLO_HOLDTIME: u16 = 15;

/// The interval of hellos, unless configured.
pub const DFLT_HELLO_INTERVAL: u16 = 5;

/// The group of all routers, 224.0.0.2.
pub const LDP_MCAST_ADDR_V4: u32 = 0xE000_0002;

/// The ID of an interface.
#[derive(Clone, Copy, Debug, PartialEq, Eq, Structural)]
pub struct InterfaceId {
    pub id: u32,
}

/// An interface.
#[derive(Clone, Debug)]
pub struct Interface {
    pub id: InterfaceId,
    pub name: String,
    pub system: InterfaceSys,
    pub config: InterfaceCfg,
    pub state: Option<InterfaceState>,
}

/// What the system tells of an interface.
#[derive(Clone, Debug)]
pub struct InterfaceSys {
    pub operative: bool,
    pub ifindex: Option<u32>,
    pub ipv4_addr_list: AddrSet<Ipv4Network>,
    pub ipv6_addr_list: AddrSet<Ipv6Network>,
}

/// Interface configuration.
#[derive(Clone, Copy, Debug, PartialEq, Eq, Structural)]
pub struct InterfaceCfg {
    pub hello_holdtime: u16,
    pub hello_interval: u16,
    pub ipv4: Option<InterfaceIpv4Cfg>,
}

/// Interface configuration for IPv4.
#[derive(Clone, Copy, Debug, PartialEq, Eq, Structural)]
pub struct InterfaceIpv4Cfg {
    pub enabled: bool,
}

/// The state of an interface that is active.
#[derive(Clone, Copy, Debug, PartialEq, Eq, Structural)]
pub struct InterfaceState {
    /// UDP discovery socket bound to this interface.
    pub disc_socket: SocketHandle,
    /// Hello Tx interval task.
    pub hello_interval_task: TaskHandle,
}

/// Why an interface is not active.
#[derive(Clone, Copy, Debug, PartialEq, Eq, Structural)]
pub enum InterfaceInactiveReason {
    AdminDown,
    OperationalDown,
    MissingIfindex,
    MissingIpAddress,
}

/// What can go wrong when an interface starts.
#[derive(Clone, Copy, Debug, PartialEq, Eq, Structural)]
pub enum IoError {
    UdpSocketError,
}

/// Why a session goes down.
#[derive(Clone, Copy, Debug, PartialEq, Eq, Structural)]
pub enum StatusCode {
    Shutdown,
}

/// What an interface asks for when it stops, or lets go of what it held.
#[derive(Clone, Copy, Debug, PartialEq, Eq, Structural)]
pub enum Action {
    /// Leave a multicast group on an interface of the system.
    LeaveMulticast { group: Ipv4Addr, ifindex: u32 },
    /// Close a socket.
    CloseSocket { socket: SocketHandle },
    /// Stop a task.
    StopTask { task: TaskHandle },
    /// Delete an adjacency.
    DeleteAdjacency { adjacency: Adjacency, status: StatusCode },
}

/// What has to happen to an interface.
#[derive(Clone, Debug)]
pub enum Update {
    /// Nothing.
    Keep,
    /// Its socket and its task are to be made, and then it starts.
    Start,
    /// It has stopped, for a reason; this is left to do.
    Stopped(InterfaceInactiveReason, Vec<Action>),
}

impl Default for InterfaceCfg {
    fn default() -> (r: InterfaceCfg)
        ensures
            r == (InterfaceCfg {
                hello_holdtime: DFLT_HELLO_HOLDTIME,
                hello_interval: DFLT_HELLO_INTERVAL,
                ipv4: None,
            }),
    {
        InterfaceCfg {
            hello_holdtime: DFLT_HELLO_HOLDTIME,
            hello_interval: DFLT_HELLO_INTERVAL,
            ipv4: None,
        }
    }
}

impl Default for InterfaceIpv4Cfg {
    fn default() -> (r: InterfaceIpv4Cfg)
        ensures
            r == (InterfaceIpv4Cfg { enabled: true }),
    {
        InterfaceIpv4Cfg { enabled: true }
    }
}

impl Default for InterfaceSys {
    fn default() -> (r: InterfaceSys)
        ensures
            r.wf(),
            !r.operative,
            r.ifindex is None,
            r.ipv4_addr_list.list@.len() == 0,
            r.ipv6_addr_list.list@.len() == 0,
    {
        InterfaceSys {
            operative: false,
            ifindex: None,
            ipv4_addr_list: AddrSet::new(),
            ipv6_addr_list: AddrSet::new(),
        }
    }
}

impl InterfaceSys {
    /// Whether the address lists are in order, and hold networks that there
    /// are.
    pub open spec fn wf(self) -> bool {
        &&& self.ipv4_addr_list.wf()
        &&& self.ipv6_addr_list.wf()
        &&& forall|net: Ipv4Network| #[trigger] self.ipv4_addr_list@.contains(net) ==> net.wf()
        &&& forall|net: Ipv6Network| #[trigger] self.ipv6_addr_list@.contains(net) ==> net.wf()
    }

    /// Whether the interface shares a subnet with the given IP address.
    pub open spec fn shares_subnet(self, addr: IpAddr) -> bool {
        match addr {
            IpAddr::V4(addr) => exists|net: Ipv4Network|
                #[trigger] self.ipv4_addr_list@.contains(net) && net.has(addr),
            IpAddr::V6(addr) => exists|net: Ipv6Network|
                #[trigger] self.ipv6_addr_list@.contains(net) && net.has(addr),
        }
    }

    /// Checks if the interface shares a subnet with the given IP address.
    pub fn contains_addr(&self, addr: &IpAddr) -> (r: bool)
        requires
            self.wf(),
        ensures
            r == self.shares_subnet(*addr),
    {
        match addr {
            IpAddr::V4(ip) => {
                let mut i: usize = 0;
                while i < self.ipv4_addr_list.list.len()
                    invariant
                        *addr == IpAddr::V4(*ip),
                        self.wf(),
                        i <= self.ipv4_addr_list.list@.len(),
                        forall|j: int|
                            0 <= j < i ==> !(#[trigger] self.ipv4_addr_list.list@[j]).has(*ip),
                    decreases self.ipv4_addr_list.list@.len() - i,
                {
                    assert(self.ipv4_addr_list@.contains(self.ipv4_addr_list.list@[i as int]));
                    if self.ipv4_addr_list.list[i].contains(*ip) {
                        return true;
                    }
                    i = i + 1;
                }
            },
            IpAddr::V6(ip) => {
                let mut i: usize = 0;
                while i < self.ipv6_addr_list.list.len()
                    invariant
                        *addr == IpAddr::V6(*ip),
                        self.wf(),
                        i <= self.ipv6_addr_list.list@.len(),
                        forall|j: int|
                            0 <= j < i ==> !(#[trigger] self.ipv6_addr_list.list@[j]).has(*ip),
                    decreases self.ipv6_addr_list.list@.len() - i,
                {
                    assert(self.ipv6_addr_list@.contains(self.ipv6_addr_list.list@[i as int]));
                    if self.ipv6_addr_list.list[i].contains(*ip) {
                        return true;
                    }
                    i = i + 1;
                }
            },
        }
        false
    }

    /// The group to join when the interface starts, and the index of the
    /// interface to join it on.
    pub fn join_multicast_ipv4(&self) -> (r: (Ipv4Addr, u32))
        requires
            self.ifindex is Some,
        ensures
            r == (Ipv4Addr { bits: LDP_MCAST_ADDR_V4 }, self.ifindex.unwrap()),
    {
        (Ipv4Addr::from_bits(LDP_MCAST_ADDR_V4), self.ifindex.unwrap())
    }

    /// The group to leave when the interface stops, and the index of the
    /// interface to leave it on.
    pub fn leave_multicast_ipv4(&self) -> (r: (Ipv4Addr, u32))
        requires
            self.ifindex is Some,
        ensures
            r == (Ipv4Addr { bits: LDP_MCAST_ADDR_V4 }, self.ifindex.unwrap()),
    {
        (Ipv4Addr::from_bits(LDP_MCAST_ADDR_V4), self.ifindex.unwrap())
    }

    /// The first IPv4 address of the interface, which has to have one: the
    /// smallest of them all.
    pub fn local_ipv4_addr(&self) -> (r: IpAddr)
        requires
            self.wf(),
            self.ipv4_addr_list.list@.len() > 0,
        ensures
            r matches IpAddr::V4(addr) && {
                &&& exists|net: Ipv4Network|
                    #[trigger] self.ipv4_addr_list@.contains(net) && net.addr == addr
                &&& forall|net: Ipv4Network|
                    #[trigger] self.ipv4_addr_list@.contains(net) ==> addr.bits <= net.addr.bits
            },
    {
        let net = self.ipv4_addr_list.first();
        assert forall|x: Ipv4Network| #[trigger] self.ipv4_addr_list@.contains(x) implies
            net.addr.bits <= x.addr.bits by {
            assert(net.rank() <= x.rank());
        }
        IpAddr::V4(net.addr)
    }
}

/// Why an interface must not be active, if there is a reason.
pub open spec fn inactive_reason(iface: Interface) -> Option<InterfaceInactiveReason> {
    if !(iface.config.ipv4 matches Some(ipv4) && ipv4.enabled) {
        Some(InterfaceInactiveReason::AdminDown)
    } else if !iface.system.operative {
        Some(InterfaceInactiveReason::OperationalDown)
    } else if iface.system.ifindex is None {
        Some(InterfaceInactiveReason::MissingIfindex)
    } else if iface.system.ipv4_addr_list@ == Set::<Ipv4Network>::empty() {
        Some(InterfaceInactiveReason::MissingIpAddress)
    } else {
        None
    }
}

/// The deletion of each of the adjacencies on the interface, in order.
pub open spec fn deletions(adjacencies: Seq<Adjacency>, iface_id: InterfaceId) -> Seq<Action>
    decreases adjacencies.len(),
{
    if adjacencies.len() == 0 {
        Seq::empty()
    } else {
        let before = deletions(adjacencies.drop_last(), iface_id);
        if adjacencies.last().iface_id == iface_id {
            before.push(
                Action::DeleteAdjacency {
                    adjacency: adjacencies.last(),
                    status: StatusCode::Shutdown,
                },
            )
        } else {
            before
        }
    }
}

/// The adjacencies on other interfaces, in order.
pub open spec fn remaining(adjacencies: Seq<Adjacency>, iface_id: InterfaceId) -> Seq<Adjacency> {
    adjacencies.filter(|a: Adjacency| a.iface_id != iface_id)
}

/// Whether only the adjacencies of an instance differ.
pub open spec fn same_but_adjacencies(a: InstanceUp, b: InstanceUp) -> bool {
    &&& b.interfaces@ == a.interfaces@
    &&& b.state == (InstanceState {
        ipv4: InstanceIpv4State { adjacencies: b.state.ipv4.adjacencies, ..a.state.ipv4 },
        ..a.state
    })
}

/// The release of what an interface held: its socket and its task.
pub open spec fn releases(state: Option<InterfaceState>) -> Seq<Action> {
    match state {
        Some(state) => seq![
            Action::CloseSocket { socket: state.disc_socket },
            Action::StopTask { task: state.hello_interval_task },
        ],
        None => Seq::empty(),
    }
}

/// What stopping an interface does: its state and its adjacencies are gone. It
/// leaves the multicast group, and lets go of its socket and its task.
pub open spec fn iface_stopped(a: InstanceUp, idx: int, b: InstanceUp, actions: Seq<Action>) -> bool {
    let iface = a.interfaces@[idx];
    let leave = Action::LeaveMulticast {
        group: Ipv4Addr { bits: LDP_MCAST_ADDR_V4 },
        ifindex: iface.system.ifindex.unwrap(),
    };
    &&& b.interfaces@ == a.interfaces@.update(idx, Interface { state: None, ..iface })
    &&& b.state == (InstanceState {
        ipv4: InstanceIpv4State { adjacencies: b.state.ipv4.adjacencies, ..a.state.ipv4 },
        ..a.state
    })
    &&& b.state.ipv4.adjacencies@ == remaining(a.state.ipv4.adjacencies@, iface.id)
    &&& actions == seq![leave] + releases(iface.state) + deletions(
        a.state.ipv4.adjacencies@,
        iface.id,
    )
}

impl Interface {
    /// A new interface, which is not active.
    pub fn new(id: InterfaceId, name: String) -> (r: Interface)
        ensures
            r.id == id,
            r.name == name,
            r.system.wf(),
            !r.system.operative,
            r.system.ifindex is None,
            r.system.ipv4_addr_list.list@.len() == 0,
            r.system.ipv6_addr_list.list@.len() == 0,
            r.config == (InterfaceCfg {
                hello_holdtime: DFLT_HELLO_HOLDTIME,
                hello_interval: DFLT_HELLO_INTERVAL,
                ipv4: None,
            }),
            r.state is None,
    {
        Interface {
            id,
            name,
            system: InterfaceSys::default(),
            config: InterfaceCfg::default(),
            state: None,
        }
    }

    /// Lets go of the socket and the task, if there are any.
    fn release(&mut self) -> (r: Vec<Action>)
        ensures
            *final(self) == (Interface { state: None, ..*old(self) }),
            r@ == releases(old(self).state),
    {
        let mut actions: Vec<Action> = Vec::new();
        if let Some(state) = &self.state {
            actions.push(Action::CloseSocket { socket: state.disc_socket });
            actions.push(Action::StopTask { task: state.hello_interval_task });
        }
        self.state = None;
        assert(actions@ =~= releases(old(self).state));
        actions
    }

    /// Starts the interface on the socket and the task that were made for it,
    /// and lets go of those that it had before, if any. If they could not be
    /// made, the interface stays as it is.
    pub fn start(&mut self, made: Result<InterfaceState, IoError>) -> (r: Result<
        Vec<Action>,
        IoError,
    >)
        ensures
            match made {
                Ok(state) => {
                    &&& r matches Ok(actions)
                    &&& actions@ == releases(old(self).state)
                    &&& *final(self) == (Interface { state: Some(state), ..*old(self) })
                },
                Err(e) => r == Err::<Vec<Action>, IoError>(e) && *final(self) == *old(self),
            },
    {
        match made {
            Ok(state) => {
                let actions = self.release();
                self.state = Some(state);
                Ok(actions)
            },
            Err(e) => Err(e),
        }
    }

    /// Stops an interface.
    pub fn stop(instance: &mut InstanceUp, iface_idx: usize) -> (r: Vec<Action>)
        requires
            iface_idx < old(instance).interfaces@.len(),
            old(instance).interfaces@[iface_idx as int].system.ifindex is Some,
        ensures
            iface_stopped(*old(instance), iface_idx as int, *final(instance), r@),
    {
        let ghost l = instance.interfaces@;
        let ghost adjacencies = instance.state.ipv4.adjacencies@;
        let iface_id = instance.interfaces[iface_idx].id;
        let (group, ifindex) = instance.interfaces[iface_idx].system.leave_multicast_ipv4();
        let leave = Action::LeaveMulticast { group, ifindex };
        let mut actions: Vec<Action> = Vec::new();
        actions.push(leave);
        let mut released = instance.interfaces[iface_idx].release();
        let ghost releases = released@;
        actions.append(&mut released);
        let mut more = Interface::delete_adjacencies(instance, iface_id);
        let ghost deleted = more@;
        actions.append(&mut more);
        proof {
            assert(actions@ =~= seq![leave] + releases + deleted);
            assert(instance.interfaces@ =~= l.update(
                iface_idx as int,
                Interface { state: None, ..l[iface_idx as int] },
            ));
        }
        actions
    }

    /// Enables or disables the interface if necessary. An interface that has
    /// to be disabled has an index of the system, which it got to be enabled.
    pub fn update(instance: &mut InstanceUp, iface_idx: usize) -> (r: Update)
        requires
            iface_idx < old(instance).interfaces@.len(),
            old(instance).interfaces@[iface_idx as int].state is Some ==> old(
                instance,
            ).interfaces@[iface_idx as int].system.ifindex is Some,
        ensures
            ({
                let iface = old(instance).interfaces@[iface_idx as int];
                match (inactive_reason(iface), iface.state is Some) {
                    (None, false) => r is Start && *final(instance) == *old(instance),
                    (Some(reason), true) => {
                        &&& r matches Update::Stopped(why, actions)
                        &&& why == reason
                        &&& iface_stopped(
                            *old(instance),
                            iface_idx as int,
                            *final(instance),
                            actions@,
                        )
                    },
                    _ => r is Keep && *final(instance) == *old(instance),
                }
            }),
    {
        let active = instance.interfaces[iface_idx].is_active();
        match instance.interfaces[iface_idx].is_ready() {
            Ok(_) => {
                if !active {
                    // Attempt to activate interface.
                    Update::Start
                } else {
                    Update::Keep
                }
            },
            Err(reason) => {
                if active {
                    // Deactivate interface.
                    let actions = Interface::stop(instance, iface_idx);
                    Update::Stopped(reason, actions)
                } else {
                    Update::Keep
                }
            },
        }
    }

    /// Takes over the hello task that was started anew, and lets go of the old
    /// one. The interface has to be active.
    pub fn sync_hello_tx(&mut self, hello_interval_task: TaskHandle) -> (r: Action)
        requires
            old(self).state is Some,
        ensures
            *final(self) == (Interface {
                state: Some(
                    InterfaceState { hello_interval_task, ..old(self).state.unwrap() },
                ),
                ..*old(self)
            }),
            r == (Action::StopTask { task: old(self).state.unwrap().hello_interval_task }),
    {
        let state = self.state.unwrap();
        self.state = Some(InterfaceState { hello_interval_task, ..state });
        Action::StopTask { task: state.hello_interval_task }
    }

    /// Returns whether the interface is active.
    pub fn is_active(&self) -> (r: bool)
        ensures
            r == (self.state is Some),
    {
        self.state.is_some()
    }

    /// Returns whether the interface is ready for LDP operation.
    pub fn is_ready(&self) -> (r: Result<(), InterfaceInactiveReason>)
        ensures
            r == (match inactive_reason(*self) {
                Some(reason) => Err::<(), InterfaceInactiveReason>(reason),
                None => Ok(()),
            }),
    {
        let enabled = match &self.config.ipv4 {
            Some(ipv4) => ipv4.enabled,
            None => false,
        };
        if !enabled {
            return Err(InterfaceInactiveReason::AdminDown);
        }
        if !self.system.operative {
            return Err(InterfaceInactiveReason::OperationalDown);
        }
        if self.system.ifindex.is_none() {
            return Err(InterfaceInactiveReason::MissingIfindex);
        }
        if self.system.ipv4_addr_list.is_empty() {
            return Err(InterfaceInactiveReason::MissingIpAddress);
        }
        Ok(())
    }

    /// The hello of the interface. The message ID will be overwritten later.
    pub fn generate_hello(&self, instance_state: &InstanceState) -> (r: HelloMsg)
        ensures
            r == (HelloMsg {
                msg_id: 0,
                params: TlvCommonHelloParams {
                    holdtime: self.config.hello_holdtime,
                    flags: HelloFlags { targeted: false, req_targ: false, gtsm: true },
                },
                ipv4_addr: Some(TlvIpv4TransAddr(instance_state.ipv4.trans_addr)),
                ipv6_addr: None,
                cfg_seqno: Some(TlvConfigSeqNo(instance_state.cfg_seqno)),
                dual_stack: None,
            }),
    {
        HelloMsg {
            // The message ID will be overwritten later.
            msg_id: 0,
            params: TlvCommonHelloParams {
                holdtime: self.config.hello_holdtime,
                flags: HelloFlags { targeted: false, req_targ: false, gtsm: true },
            },
            ipv4_addr: Some(TlvIpv4TransAddr(instance_state.ipv4.trans_addr)),
            ipv6_addr: None,
            cfg_seqno: Some(TlvConfigSeqNo(instance_state.cfg_seqno)),
            dual_stack: None,
        }
    }

    /// The PDU that sends a hello, under the next message ID.
    pub fn hello_pdu(router_id: Ipv4Addr, msg_id: u32, hello: HelloMsg) -> (r: Pdu)
        ensures
            r.lsr_id == router_id,
            r.lspace_id == 0,
            r.messages@ == seq![HelloMsg { msg_id, ..hello }],
    {
        // Update hello message ID.
        let mut hello = hello;
        hello.msg_id = msg_id;
        // Prepare hello pdu.
        let mut pdu = Pdu::new(router_id, 0);
        pdu.messages.push(hello);
        assert(pdu.messages@ =~= seq![hello]);
        pdu
    }

    /// The hold time of an adjacency, given the one in the neighbor's hello:
    /// the smaller one counts, and zero stands for the default.
    pub fn calculate_adj_holdtime(&self, hello_holdtime: u16) -> (r: u16)
        ensures
            ({
                let theirs = if hello_holdtime == 0 {
                    DFLT_ADJ_HOLDTIME
                } else {
                    hello_holdtime
                };
                r == (if self.config.hello_holdtime <= theirs {
                    self.config.hello_holdtime
                } else {
                    theirs
                })
            }),
            r <= self.config.hello_holdtime,
            hello_holdtime != 0 ==> r <= hello_holdtime,
    {
        let mut hello_holdtime = hello_holdtime;
        if hello_holdtime == 0 {
            hello_holdtime = DFLT_ADJ_HOLDTIME;
        }
        if self.config.hello_holdtime <= hello_holdtime {
            self.config.hello_holdtime
        } else {
            hello_holdtime
        }
    }

    /// When the next hello is due, given the time that is left on the task
    /// that sends them: never, unless the interface is active.
    pub fn next_hello<D>(&self, left: D) -> (r: Option<D>)
        ensures
            r == (if self.state is Some {
                Some(left)
            } else {
                None
            }),
    {
        if self.is_active() {
            Some(left)
        } else {
            None
        }
    }

    /// Takes the adjacencies of an interface off the list, and tells which
    /// deletions that takes.
    fn delete_adjacencies(instance: &mut InstanceUp, iface_id: InterfaceId) -> (r: Vec<Action>)
        ensures
            same_but_adjacencies(*old(instance), *final(instance)),
            final(instance).state.ipv4.adjacencies@ == remaining(
                old(instance).state.ipv4.adjacencies@,
                iface_id,
            ),
            r@ == deletions(old(instance).state.ipv4.adjacencies@, iface_id),
    {
        let ghost l = instance.state.ipv4.adjacencies@;
        let ghost other = |a: Adjacency| a.iface_id != iface_id;
        let mut actions: Vec<Action> = Vec::new();
        let mut rest: Vec<Adjacency> = Vec::new();
        let mut i: usize = 0;
        proof {
            reveal(Seq::filter);
            assert(l.take(0) =~= Seq::empty());
        }
        while i < instance.state.ipv4.adjacencies.len()
            invariant
                l == instance.state.ipv4.adjacencies@,
                *instance == *old(instance),
                other == (|a: Adjacency| a.iface_id != iface_id),
                i <= l.len(),
                rest@ == l.take(i as int).filter(other),
                actions@ == deletions(l.take(i as int), iface_id),
            decreases l.len() - i,
        {
            let adjacency = instance.state.ipv4.adjacencies[i];
            proof {
                reveal(Seq::filter);
                assert(l.take(i + 1).drop_last() =~= l.take(i as int));
                assert(l.take(i + 1).last() == adjacency);
            }
            if adjacency.iface_id == iface_id {
                actions.push(
                    Action::DeleteAdjacency { adjacency, status: StatusCode::Shutdown },
                );
            } else {
                rest.push(adjacency);
            }
            i = i + 1;
        }
        assert(l.take(i as int) =~= l);
        instance.state.ipv4.adjacencies = rest;
        actions
    }
}

/// An interface that stops takes exactly its own adjacencies with it: each of
/// them is deleted, no other is, and none of them is left.
pub proof fn lemma_adjacencies_of_stopped(adjacencies: Seq<Adjacency>, iface_id: InterfaceId)
    ensures
        forall|i: int|
            0 <= i < remaining(adjacencies, iface_id).len() ==> (#[trigger] remaining(
                adjacencies,
                iface_id,
            )[i]).iface_id != iface_id,
        forall|i: int|
            0 <= i < adjacencies.len() ==> if (#[trigger] adjacencies[i]).iface_id == iface_id {
                deletions(adjacencies, iface_id).contains(
                    Action::DeleteAdjacency {
                        adjacency: adjacencies[i],
                        status: StatusCode::Shutdown,
                    },
                )
            } else {
                remaining(adjacencies, iface_id).contains(adjacencies[i])
            },
        deletions(adjacencies, iface_id).len() + remaining(adjacencies, iface_id).len()
            == adjacencies.len(),
    decreases adjacencies.len(),
{
    reveal(Seq::filter);
    if adjacencies.len() > 0 {
        let init = adjacencies.drop_last();
        let last = adjacencies.last();
        lemma_adjacencies_of_stopped(init, iface_id);
        let d0 = deletions(init, iface_id);
        let d = deletions(adjacencies, iface_id);
        let r0 = remaining(init, iface_id);
        let r = remaining(adjacencies, iface_id);
        if last.iface_id == iface_id {
            assert(d[d0.len() as int] == (Action::DeleteAdjacency {
                adjacency: last,
                status: StatusCode::Shutdown,
            }));
        } else {
            assert(r[r0.len() as int] == last);
        }
        assert forall|i: int| 0 <= i < adjacencies.len() implies if (
        #[trigger] adjacencies[i]).iface_id == iface_id {
            d.contains(
                Action::DeleteAdjacency {
                    adjacency: adjacencies[i],
                    status: StatusCode::Shutdown,
                },
            )
        } else {
            r.contains(adjacencies[i])
        } by {
            if i < init.len() {
                assert(init[i] == adjacencies[i]);
                let x = Action::DeleteAdjacency {
                    adjacency: adjacencies[i],
                    status: StatusCode::Shutdown,
                };
                if d0.contains(x) {
                    let k = choose|k: int| 0 <= k < d0.len() && d0[k] == x;
                    assert(d[k] == x);
                }
                if r0.contains(adjacencies[i]) {
                    let k = choose|k: int| 0 <= k < r0.len() && r0[k] == adjacencies[i];
                    assert(r[k] == adjacencies[i]);
                }
            }
        }
    }
}

/// Stopping settles the matter: the interface is not active any more, and for
/// the same reason it has to stay so.
pub proof fn lemma_stopped_stays(a: InstanceUp, idx: int, b: InstanceUp, actions: Seq<Action>)
    requires
        0 <= idx < a.interfaces@.len(),
        iface_stopped(a, idx, b, actions),
    ensures
        b.interfaces@[idx].state is None,
        inactive_reason(b.interfaces@[idx]) == inactive_reason(a.interfaces@[idx]),
        forall|i: int|
            0 <= i < a.interfaces@.len() && i != idx ==> #[trigger] b.interfaces@[i]
                == a.interfaces@[i],
{
}

/// An interface is ready exactly if IPv4 is enabled on it, it is operative, it
/// has an index, and it has an IPv4 address, so that there is a first one. What
/// is missing first in this order is the reason why it is not.
pub proof fn lemma_ready(iface: Interface, r: Result<(), InterfaceInactiveReason>)
    requires
        call_ensures(Interface::is_ready, (&iface,), r),
    ensures
        ({
            let enabled = iface.config.ipv4 is Some && iface.config.ipv4.unwrap().enabled;
            let has_addr = exists|net: Ipv4Network| iface.system.ipv4_addr_list@.contains(net);
            &&& r is Ok ==> enabled && iface.system.operative && iface.system.ifindex is Some
                && has_addr && iface.system.ipv4_addr_list.list@.len() > 0
            &&& enabled && iface.system.operative && iface.system.ifindex is Some && has_addr
                ==> r is Ok
            &&& !enabled <==> r == Err::<(), InterfaceInactiveReason>(
                InterfaceInactiveReason::AdminDown,
            )
            &&& r == Err::<(), InterfaceInactiveReason>(InterfaceInactiveReason::OperationalDown)
                <==> enabled && !iface.system.operative
            &&& r == Err::<(), InterfaceInactiveReason>(InterfaceInactiveReason::MissingIfindex)
                <==> enabled && iface.system.operative && iface.system.ifindex is None
            &&& r == Err::<(), InterfaceInactiveReason>(InterfaceInactiveReason::MissingIpAddress)
                <==> enabled && iface.system.operative && iface.system.ifindex is Some && !has_addr
        }),
{
    let l = iface.system.ipv4_addr_list;
    if l@ != Set::<Ipv4Network>::empty() {
        assert(exists|net: Ipv4Network| l@.contains(net)) by {
            if forall|net: Ipv4Network| !l@.contains(net) {
                assert(l@ =~= Set::<Ipv4Network>::empty());
            }
        }
        let net = choose|net: Ipv4Network| l@.contains(net);
        assert(l.list@.contains(net));
    }
}

/// Whether an interface is ready depends on its IPv4 side alone: not on its
/// IPv6 addresses, its name, its timers, or whether it is active already.
pub proof fn lemma_ready_by_ipv4_alone(
    a: Interface,
    b: Interface,
    r: Result<(), InterfaceInactiveReason>,
    s: Result<(), InterfaceInactiveReason>,
)
    requires
        call_ensures(Interface::is_ready, (&a,), r),
        call_ensures(Interface::is_ready, (&b,), s),
        a.config.ipv4 == b.config.ipv4,
        a.system.operative == b.system.operative,
        a.system.ifindex is Some == b.system.ifindex is Some,
        a.system.ipv4_addr_list@ == b.system.ipv4_addr_list@,
    ensures
        r == s,
{
}

/// An update starts what is ready and not active, stops what is active and not
/// ready, for the reason that it is not ready, and leaves all else alone. A
/// start changes nothing before its socket is there.
pub proof fn lemma_iface_update(
    a: InstanceUp,
    iface_idx: usize,
    b: InstanceUp,
    ready: Result<(), InterfaceInactiveReason>,
    r: Update,
)
    requires
        exists|x: &mut InstanceUp| #[trigger]
            call_ensures(Interface::update, (x, iface_idx), r) && *x == a && *final(x) == b,
        iface_idx < a.interfaces@.len(),
        call_ensures(Interface::is_ready, (&a.interfaces@[iface_idx as int],), ready),
    ensures
        r is Start <==> ready is Ok && a.interfaces@[iface_idx as int].state is None,
        r is Stopped <==> ready is Err && a.interfaces@[iface_idx as int].state is Some,
        !(r is Stopped) ==> b == a,
        r matches Update::Stopped(reason, actions) ==> {
            &&& ready == Err::<(), InterfaceInactiveReason>(reason)
            &&& b.interfaces@[iface_idx as int].state is None
        },
{
}

/// Whether what is asked for is the end of an interface: first it leaves the
/// group of all routers on its index, then its socket is closed and its task
/// stopped, if it has them, and last each of its adjacencies is deleted, in
/// order, and no other.
pub open spec fn ends(iface: Interface, adjacencies: Seq<Adjacency>, actions: Seq<Action>) -> bool {
    let held: int = if iface.state is Some {
        2
    } else {
        0
    };
    let deleted = actions.skip(1 + held);
    &&& actions.len() > held
    &&& actions[0] matches Action::LeaveMulticast { group, ifindex }
    &&& group.bits == 0xE000_0002
    &&& iface.system.ifindex == Some(ifindex)
    &&& iface.state matches Some(state) ==> {
        &&& actions[1] == (Action::CloseSocket { socket: state.disc_socket })
        &&& actions[2] == (Action::StopTask { task: state.hello_interval_task })
    }
    &&& deleted == adjacencies.filter(|adj: Adjacency| adj.iface_id == iface.id).map_values(
        |adj: Adjacency|
            Action::DeleteAdjacency { adjacency: adj, status: StatusCode::Shutdown },
    )
}

proof fn lemma_deletions(adjacencies: Seq<Adjacency>, iface_id: InterfaceId)
    ensures
        deletions(adjacencies, iface_id) == adjacencies.filter(
            |adj: Adjacency| adj.iface_id == iface_id,
        ).map_values(
            |adj: Adjacency|
                Action::DeleteAdjacency { adjacency: adj, status: StatusCode::Shutdown },
        ),
    decreases adjacencies.len(),
{
    reveal(Seq::filter);
    let own = |adj: Adjacency| adj.iface_id == iface_id;
    let delete = |adj: Adjacency|
        Action::DeleteAdjacency { adjacency: adj, status: StatusCode::Shutdown };
    if adjacencies.len() > 0 {
        let init = adjacencies.drop_last();
        lemma_deletions(init, iface_id);
        if own(adjacencies.last()) {
            assert(init.filter(own).push(adjacencies.last()).map_values(delete) =~= init.filter(
                own,
            ).map_values(delete).push(delete(adjacencies.last())));
        }
    } else {
        assert(deletions(adjacencies, iface_id) =~= adjacencies.filter(own).map_values(delete));
    }
}

/// An interface that stops, by itself or by an update, lets go of all it had:
/// the group, the socket, the task and its adjacencies. Nothing else of it
/// changes, and no other interface and no adjacency of another interface is
/// touched.
pub proof fn lemma_iface_stop(a: InstanceUp, iface_idx: usize, b: InstanceUp, actions: Vec<Action>)
    requires
        (exists|x: &mut InstanceUp| #[trigger]
            call_ensures(Interface::stop, (x, iface_idx), actions) && *x == a && *final(x) == b)
            || (exists|x: &mut InstanceUp, reason: InterfaceInactiveReason| #[trigger]
            call_ensures(Interface::update, (x, iface_idx), Update::Stopped(reason, actions)) && *x
                == a && *final(x) == b),
        iface_idx < a.interfaces@.len(),
        a.interfaces@[iface_idx as int].system.ifindex is Some,
    ensures
        ends(a.interfaces@[iface_idx as int], a.state.ipv4.adjacencies@, actions@),
        b.interfaces@.len() == a.interfaces@.len(),
        ({
            let before = a.interfaces@[iface_idx as int];
            let after = b.interfaces@[iface_idx as int];
            &&& after.state is None
            &&& after.id == before.id
            &&& after.name == before.name
            &&& after.system == before.system
            &&& after.config == before.config
        }),
        forall|i: int|
            0 <= i < a.interfaces@.len() && i != iface_idx ==> #[trigger] b.interfaces@[i]
                == a.interfaces@[i],
        b.state.ipv4.adjacencies@ == a.state.ipv4.adjacencies@.filter(
            |adj: Adjacency| adj.iface_id != a.interfaces@[iface_idx as int].id,
        ),
        b.state.ipv4.trans_addr == a.state.ipv4.trans_addr,
        b.state.cfg_seqno == a.state.cfg_seqno,
{
    let iface = a.interfaces@[iface_idx as int];
    let adjacencies = a.state.ipv4.adjacencies@;
    lemma_deletions(adjacencies, iface.id);
    let held: int = if iface.state is Some {
        2
    } else {
        0
    };
    assert(actions@.skip(1 + held) =~= deletions(adjacencies, iface.id));
}

/// An interface that was started is active, on exactly the socket and the task
/// that were made, and whatever it had before is released. If they could not be
/// made, the error comes back and the interface is as before.
pub proof fn lemma_iface_start(
    a: Interface,
    made: Result<InterfaceState, IoError>,
    b: Interface,
    r: Result<Vec<Action>, IoError>,
    active: bool,
)
    requires
        exists|x: &mut Interface| #[trigger]
            call_ensures(Interface::start, (x, made), r) && *x == a && *final(x) == b,
        call_ensures(Interface::is_active, (&b,), active),
    ensures
        r is Ok <==> made is Ok,
        made matches Err(e) ==> r == Err::<Vec<Action>, IoError>(e) && b == a,
        made matches Ok(state) ==> {
            &&& active
            &&& b.state == Some(state)
            &&& b.id == a.id && b.name == a.name && b.system == a.system && b.config == a.config
            &&& r matches Ok(actions)
            &&& match a.state {
                Some(old_state) => {
                    &&& actions@.len() == 2
                    &&& actions@[0] == (Action::CloseSocket { socket: old_state.disc_socket })
                    &&& actions@[1] == (Action::StopTask { task: old_state.hello_interval_task })
                },
                None => actions@.len() == 0,
            }
        },
{
}

/// The group that an interface joins when it starts is the one that it leaves
/// when it stops, on its own index.
pub proof fn lemma_join_leave(system: InterfaceSys, join: (Ipv4Addr, u32), leave: (Ipv4Addr, u32))
    requires
        call_ensures(InterfaceSys::join_multicast_ipv4, (&system,), join),
        call_ensures(InterfaceSys::leave_multicast_ipv4, (&system,), leave),
        system.ifindex is Some,
    ensures
        join == leave,
        join.0.bits == 0xE000_0002,
        system.ifindex == Some(join.1),
{
}

/// A new hello task takes the place of the old one, which is stopped, and
/// nothing else changes.
pub proof fn lemma_sync_hello(a: Interface, task: TaskHandle, b: Interface, r: Action)
    requires
        exists|x: &mut Interface| #[trigger]
            call_ensures(Interface::sync_hello_tx, (x, task), r) && *x == a && *final(x) == b,
        a.state is Some,
    ensures
        r == (Action::StopTask { task: a.state.unwrap().hello_interval_task }),
        b.state is Some,
        b.state.unwrap().hello_interval_task == task,
        b.state.unwrap().disc_socket == a.state.unwrap().disc_socket,
        b.id == a.id && b.name == a.name && b.system == a.system && b.config == a.config,
{
}

/// A hello tells the hold time of the interface, and the transport address and
/// the configuration of the instance. It is a link hello with GTSM, never a
/// targeted one, and has no IPv6 side. It goes out alone, from the router, under
/// the message ID of the day and otherwise as it was generated.
pub proof fn lemma_hello(
    iface: Interface,
    state: InstanceState,
    hello: HelloMsg,
    router_id: Ipv4Addr,
    msg_id: u32,
    pdu: Pdu,
)
    requires
        call_ensures(Interface::generate_hello, (&iface, &state), hello),
        call_ensures(Interface::hello_pdu, (router_id, msg_id, hello), pdu),
    ensures
        hello.params.holdtime == iface.config.hello_holdtime,
        hello.params.flags.gtsm,
        !hello.params.flags.targeted && !hello.params.flags.req_targ,
        hello.ipv4_addr matches Some(addr) && addr.0 == state.ipv4.trans_addr,
        hello.cfg_seqno matches Some(seqno) && seqno.0 == state.cfg_seqno,
        hello.ipv6_addr is None && hello.dual_stack is None,
        hello.msg_id == 0,
        pdu.lsr_id == router_id,
        pdu.lspace_id == 0,
        pdu.messages@.len() == 1,
        pdu.messages@[0].msg_id == msg_id,
        pdu.messages@[0].params == hello.params,
        pdu.messages@[0].ipv4_addr == hello.ipv4_addr,
        pdu.messages@[0].ipv6_addr == hello.ipv6_addr,
        pdu.messages@[0].cfg_seqno == hello.cfg_seqno,
        pdu.messages@[0].dual_stack == hello.dual_stack,
{
}

/// Any hello that is sent keeps all but its message ID.
pub proof fn lemma_hello_pdu(router_id: Ipv4Addr, msg_id: u32, hello: HelloMsg, pdu: Pdu)
    requires
        call_ensures(Interface::hello_pdu, (router_id, msg_id, hello), pdu),
    ensures
        pdu.lsr_id == router_id,
        pdu.lspace_id == 0,
        pdu.messages@.len() == 1,
        pdu.messages@[0].msg_id == msg_id,
        pdu.messages@[0].params == hello.params,
        pdu.messages@[0].ipv4_addr == hello.ipv4_addr,
        pdu.messages@[0].ipv6_addr == hello.ipv6_addr,
        pdu.messages@[0].cfg_seqno == hello.cfg_seqno,
        pdu.messages@[0].dual_stack == hello.dual_stack,
{
}

/// The hold time of an adjacency is one of the two that were offered, and
/// neither side's is exceeded. A neighbor that offers none, a zero, is taken to
/// offer 15 seconds.
pub proof fn lemma_adj_holdtime(iface: Interface, theirs: u16, r: u16, for_zero: u16, for_15: u16)
    requires
        call_ensures(Interface::calculate_adj_holdtime, (&iface, theirs), r),
        call_ensures(Interface::calculate_adj_holdtime, (&iface, 0), for_zero),
        call_ensures(Interface::calculate_adj_holdtime, (&iface, 15), for_15),
    ensures
        for_zero == for_15,
        theirs != 0 ==> r == theirs || r == iface.config.hello_holdtime,
        theirs != 0 ==> r <= theirs && r <= iface.config.hello_holdtime,
{
}

/// The next hello is due when the task says so, and never if there is none.
pub proof fn lemma_next_hello(iface: Interface, left: u64, r: Option<u64>)
    requires
        call_ensures(Interface::next_hello::<u64>, (&iface, left), r),
    ensures
        iface.state is Some ==> r == Some(left),
        iface.state is None ==> r is None,
{
}

/// An address is in the reach of an interface exactly if it is in one of its
/// networks of the same family. The networks of the other family do not matter.
pub proof fn lemma_contains_addr(system: InterfaceSys, v4: Ipv4Addr, v6: Ipv6Addr, r4: bool, r6: bool)
    requires
        call_ensures(InterfaceSys::contains_addr, (&system, &IpAddr::V4(v4)), r4),
        call_ensures(InterfaceSys::contains_addr, (&system, &IpAddr::V6(v6)), r6),
    ensures
        forall|net: Ipv4Network| #[trigger]
            system.ipv4_addr_list@.contains(net) && net.has(v4) ==> r4,
        r4 ==> exists|net: Ipv4Network|
            #[trigger] system.ipv4_addr_list@.contains(net) && net.has(v4),
        forall|net: Ipv6Network| #[trigger]
            system.ipv6_addr_list@.contains(net) && net.has(v6) ==> r6,
        r6 ==> exists|net: Ipv6Network|
            #[trigger] system.ipv6_addr_list@.contains(net) && net.has(v6),
{
}

/// The local address is an IPv4 address of the interface, and no other one is
/// smaller.
pub proof fn lemma_local_addr(system: InterfaceSys, r: IpAddr)
    requires
        call_ensures(InterfaceSys::local_ipv4_addr, (&system,), r),
    ensures
        r is V4,
        exists|net: Ipv4Network|
            #[trigger] system.ipv4_addr_list@.contains(net) && IpAddr::V4(net.addr) == r,
        forall|net: Ipv4Network| #[trigger]
            system.ipv4_addr_list@.contains(net) ==> r->V4_0.bits <= net.addr.bits,
{
}

/// A new interface is of no use yet: it is not active, and not ready either.
/// Its hellos would go out every 5 seconds and be good for 15.
pub proof fn lemma_new_interface(
    id: InterfaceId,
    name: String,
    r: Interface,
    ready: Result<(), InterfaceInactiveReason>,
)
    requires
        call_ensures(Interface::new, (id, name), r),
        call_ensures(Interface::is_ready, (&r,), ready),
    ensures
        r.id == id,
        r.name == name,
        r.state is None,
        ready == Err::<(), InterfaceInactiveReason>(InterfaceInactiveReason::AdminDown),
        r.config.hello_holdtime == 15,
        r.config.hello_interval == 5,
        r.config.ipv4 is None,
        !r.system.operative,
        r.system.ifindex is None,
        r.system.ipv4_addr_list.list@.len() == 0,
        r.system.ipv6_addr_list.list@.len() == 0,
{
}

/// What is there before anything is configured or told: IPv4 is not configured,
/// and once it is, it is enabled.
pub proof fn lemma_defaults(config: InterfaceCfg, ipv4: InterfaceIpv4Cfg, system: InterfaceSys)
    requires
        call_ensures(<InterfaceCfg as Default>::default, (), config),
        call_ensures(<InterfaceIpv4Cfg as Default>::default, (), ipv4),
        call_ensures(<InterfaceSys as Default>::default, (), system),
    ensures
        config.hello_holdtime == 15 && config.hello_interval == 5 && config.ipv4 is None,
        ipv4.enabled,
        !system.operative && system.ifindex is None,
        system.ipv4_addr_list.list@.len() == 0 && system.ipv6_addr_list.list@.len() == 0,
{
}

} // verus!
