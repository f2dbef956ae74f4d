//! The IS-IS instance.

use std::time::Instant;

use vstd::prelude::*;

use crate::isis::interface::{interfaces_wf, Interface, InterfaceState, Interfaces};
use crate::isis::messages::{
    Action, AdjHoldTimerMsg, Event, InstanceInactiveReason, InterfaceInactiveReason, InterfaceKey,
    LspEntryKey, ProtocolInputMsg,
};
use crate::isis::packet::id::{LevelNumber, LevelType, SystemId};
use crate::isis::southbound::rx::{
    addr_changed, iface_updated, process_addr_add, process_addr_del, process_iface_update,
    process_router_id_update,
};
use crate::utils::clock::{
    elapsed_secs, seconds_since, wall_clock_now, wall_clock_reading, Timestamp,
};
use crate::utils::ibus::IbusMsg;
use crate::utils::net::Ipv4Addr;

verus! {

/// How many seconds lie between two LSP originations, at least.
pub const LSP_MIN_GEN_INTERVAL: u64 = 5;

/// An IS-IS instance.
#[derive(Debug)]
pub struct Instance {
    /// Instance name.
    pub name: String,
    /// Instance system data.
    pub system: InstanceSys,
    /// Instance configuration data.
    pub config: InstanceCfg,
    /// Instance state data.
    pub state: Option<InstanceState>,
    /// Instance arenas.
    pub arenas: InstanceArenas,
}

/// What the system tells.
#[derive(Clone, Copy, Debug, PartialEq, Eq, Structural)]
pub struct InstanceSys {
    /// System Router ID.
    pub router_id: Option<Ipv4Addr>,
}

/// Instance configuration.
#[derive(Clone, Copy, Debug, PartialEq, Eq)]
pub struct InstanceCfg {
    pub enabled: bool,
    pub system_id: Option<SystemId>,
}

/// The state of an instance that is up.
#[derive(Debug)]
pub struct InstanceState {
    /// LSP origination data: when it last happened, whether a backoff timer
    /// runs, and which levels wait for it.
    pub lsp_orig_last: Option<Instant>,
    pub lsp_orig_backoff: bool,
    pub lsp_orig_pending: Option<LevelType>,
    /// Event counters.
    pub counters: Levels<InstanceCounters>,
    pub discontinuity_time: Timestamp,
    /// Log of LSP updates.
    pub lsp_log_next_id: u32,
}

/// One of a kind for each level.
#[derive(Clone, Copy, Debug, PartialEq, Eq, Structural)]
pub struct Levels<T> {
    pub l1: T,
    pub l2: T,
}

/// Event counters.
#[derive(Clone, Copy, Debug, PartialEq, Eq, Structural)]
pub struct InstanceCounters {
    pub corrupted_lsps: u32,
    pub auth_type_fails: u32,
    pub auth_fails: u32,
    pub database_overload: u32,
    pub own_lsp_purge: u32,
    pub manual_addr_drop_from_area: u32,
    pub max_sequence: u32,
    pub seqno_skipped: u32,
    pub id_len_mismatch: u32,
    pub partition_changes: u32,
    pub lsp_errors: u32,
    pub spf_runs: u32,
}

/// What the instance keeps whether it is up or not.
#[derive(Debug)]
pub struct InstanceArenas {
    pub interfaces: Interfaces,
}

/// The parts of an instance that is up.
pub struct InstanceUpView<'a> {
    pub name: &'a str,
    pub system: &'a InstanceSys,
    pub config: &'a InstanceCfg,
    pub state: &'a mut InstanceState,
}

impl InstanceCounters {
    /// No events.
    pub open spec fn zero() -> InstanceCounters {
        InstanceCounters {
            corrupted_lsps: 0,
            auth_type_fails: 0,
            auth_fails: 0,
            database_overload: 0,
            own_lsp_purge: 0,
            manual_addr_drop_from_area: 0,
            max_sequence: 0,
            seqno_skipped: 0,
            id_len_mismatch: 0,
            partition_changes: 0,
            lsp_errors: 0,
            spf_runs: 0,
        }
    }
}

impl Default for InstanceCounters {
    fn default() -> (r: InstanceCounters)
        ensures
            r == InstanceCounters::zero(),
    {
        InstanceCounters {
            corrupted_lsps: 0,
            auth_type_fails: 0,
            auth_fails: 0,
            database_overload: 0,
            own_lsp_purge: 0,
            manual_addr_drop_from_area: 0,
            max_sequence: 0,
            seqno_skipped: 0,
            id_len_mismatch: 0,
            partition_changes: 0,
            lsp_errors: 0,
            spf_runs: 0,
        }
    }
}

impl Default for InstanceSys {
    fn default() -> (r: InstanceSys)
        ensures
            r == (InstanceSys { router_id: None }),
    {
        InstanceSys { router_id: None }
    }
}

impl Default for InstanceCfg {
    fn default() -> (r: InstanceCfg)
        ensures
            r == (InstanceCfg { enabled: true, system_id: None }),
    {
        InstanceCfg { enabled: true, system_id: None }
    }
}

impl Default for InstanceArenas {
    fn default() -> (r: InstanceArenas)
        ensures
            r.interfaces.list@ == Seq::<Interface>::empty(),
    {
        InstanceArenas { interfaces: Interfaces::new() }
    }
}

impl InstanceState {
    /// The state of an instance that has just come up at the given time.
    pub open spec fn initial(discontinuity_time: Timestamp) -> InstanceState {
        InstanceState {
            lsp_orig_last: None,
            lsp_orig_backoff: false,
            lsp_orig_pending: None,
            counters: Levels { l1: InstanceCounters::zero(), l2: InstanceCounters::zero() },
            discontinuity_time,
            lsp_log_next_id: 0,
        }
    }

    /// The initial state, at the current time.
    pub fn new() -> (r: InstanceState)
        ensures
            r == InstanceState::initial(r.discontinuity_time),
            wall_clock_reading(r.discontinuity_time),
    {
        InstanceState {
            lsp_orig_last: None,
            lsp_orig_backoff: false,
            lsp_orig_pending: None,
            counters: Levels {
                l1: InstanceCounters::default(),
                l2: InstanceCounters::default(),
            },
            discontinuity_time: wall_clock_now(),
            lsp_log_next_id: 0,
        }
    }
}

/// The question about each of `n` interfaces.
pub open spec fn queries(n: nat) -> Seq<Action> {
    Seq::new(n, |i: int| Action::QuerySouthbound { iface: i as usize })
}

/// What an instance asks for when it starts: what the system knows of each
/// interface, and the first LSPs.
pub open spec fn start_actions(n: nat) -> Seq<Action> {
    queries(n).push(Action::OriginateLsps)
}

/// What an instance asks of its interfaces when it stops: that each of the
/// first `n` stops that is active.
pub open spec fn stop_actions(l: Seq<Interface>, n: nat) -> Seq<Action>
    decreases n,
{
    if n == 0 {
        Seq::empty()
    } else {
        let before = stop_actions(l, (n - 1) as nat);
        if l[n - 1].state.active {
            before.push(
                Action::StopInterface {
                    iface: (n - 1) as usize,
                    reason: InterfaceInactiveReason::InstanceDown,
                },
            )
        } else {
            before
        }
    }
}

/// What an instance that is up asks for when it stops: that its interfaces
/// stop, and then the backoff timer, if it runs.
pub open spec fn down_actions(a: Instance) -> Seq<Action> {
    let timer = if a.state.unwrap().lsp_orig_backoff {
        seq![Action::StopLspOriginateTimer]
    } else {
        Seq::empty()
    };
    stop_actions(a.interfaces(), a.interfaces().len()) + timer
}

/// The first `n` interfaces once they have stopped, and the others.
pub open spec fn stopped(l: Seq<Interface>, n: int) -> Seq<Interface> {
    Seq::new(
        l.len(),
        |i: int|
            if i < n {
                Interface { state: InterfaceState { active: false }, ..l[i] }
            } else {
                l[i]
            },
    )
}

/// Whether nothing but the state and the interfaces differs.
pub open spec fn same_setup(a: Instance, b: Instance) -> bool {
    a.name == b.name && a.system == b.system && a.config == b.config
}

/// What an update does: an instance that may run starts, and one that may not
/// run stops, unless it is so already.
pub open spec fn updated(a: Instance, b: Instance, actions: Seq<Action>) -> bool {
    &&& same_setup(a, b)
    &&& b.state is Some <==> a.ready()
    &&& if a.ready() && a.state is None {
        &&& b.just_started()
        &&& b.interfaces() == a.interfaces()
        &&& actions == start_actions(a.interfaces().len())
    } else if !a.ready() && a.state is Some {
        &&& b.interfaces() == stopped(a.interfaces(), a.interfaces().len() as int)
        &&& actions == down_actions(a)
    } else {
        &&& b == a
        &&& actions == Seq::<Action>::empty()
    }
}

impl Instance {
    /// Whether the interfaces are in order.
    pub open spec fn wf(self) -> bool {
        interfaces_wf(self.arenas.interfaces.list@)
    }

    /// The interfaces.
    pub open spec fn interfaces(self) -> Seq<Interface> {
        self.arenas.interfaces.list@
    }

    /// Whether the configuration lets the instance run.
    pub open spec fn ready(self) -> bool {
        self.config.enabled && self.config.system_id is Some
    }

    /// Whether the instance has just started, at a time that the wall clock has
    /// shown: all LSPs wait for their first origination.
    pub open spec fn just_started(self) -> bool {
        &&& self.state matches Some(state)
        &&& state == (InstanceState {
            lsp_orig_pending: Some(LevelType::All),
            ..InstanceState::initial(state.discontinuity_time)
        })
        &&& wall_clock_reading(state.discontinuity_time)
    }

    /// A new instance, which is not up.
    pub fn new(name: String) -> (r: Instance)
        ensures
            r.wf(),
            r.name == name,
            r.system == (InstanceSys { router_id: None }),
            r.config == (InstanceCfg { enabled: true, system_id: None }),
            r.state is None,
            r.interfaces() == Seq::<Interface>::empty(),
    {
        Instance {
            name,
            system: InstanceSys::default(),
            config: InstanceCfg::default(),
            state: None,
            arenas: InstanceArenas::default(),
        }
    }

    /// What a new instance asks for: information about the system Router ID.
    pub fn init(&self) -> (r: Action)
        ensures
            r == Action::QueryRouterId,
    {
        Action::QueryRouterId
    }

    /// Ensures the instance is disabled before exiting. One that is down is
    /// disabled already.
    pub fn shutdown(self) -> (r: Vec<Action>)
        ensures
            r@ == (if self.state is Some {
                down_actions(self)
            } else {
                Seq::empty()
            }),
    {
        let mut instance = self;
        if instance.is_active() {
            instance.stop()
        } else {
            Vec::new()
        }
    }

    /// Checks if the instance needs to be started or stopped in response to a
    /// northbound or southbound event.
    pub fn update(&mut self) -> (r: Vec<Action>)
        ensures
            updated(*old(self), *final(self), r@),
    {
        let ready = self.is_ready().is_ok();
        if ready && !self.is_active() {
            self.start()
        } else if !ready && self.is_active() {
            self.stop()
        } else {
            Vec::new()
        }
    }

    /// Starts the IS-IS instance.
    fn start(&mut self) -> (r: Vec<Action>)
        ensures
            same_setup(*old(self), *final(self)),
            final(self).just_started(),
            final(self).interfaces() == old(self).interfaces(),
            r@ == start_actions(old(self).interfaces().len()),
    {
        // Create instance initial state.
        self.state = Some(InstanceState::new());
        // Start interfaces.
        let mut actions: Vec<Action> = Vec::new();
        let mut i: usize = 0;
        while i < self.arenas.interfaces.list.len()
            invariant
                i <= self.interfaces().len(),
                actions@ == queries(i as nat),
            decreases self.interfaces().len() - i,
        {
            actions.push(Action::QuerySouthbound { iface: i });
            i = i + 1;
            assert(actions@ =~= queries(i as nat));
        }
        // Schedule initial LSP origination.
        if let Some((mut instance, _)) = self.as_up() {
            if let Some(action) = instance.schedule_lsp_origination(LevelType::All) {
                actions.push(action);
            }
        }
        actions
    }

    /// Stops the IS-IS instance.
    fn stop(&mut self) -> (r: Vec<Action>)
        requires
            old(self).state is Some,
        ensures
            same_setup(*old(self), *final(self)),
            final(self).state is None,
            final(self).interfaces() == stopped(
                old(self).interfaces(),
                old(self).interfaces().len() as int,
            ),
            r@ == down_actions(*old(self)),
    {
        let ghost l = self.interfaces();
        // Stop interfaces.
        let mut actions: Vec<Action> = Vec::new();
        let mut i: usize = 0;
        assert(l =~= stopped(l, 0));
        while i < self.arenas.interfaces.list.len()
            invariant
                same_setup(*old(self), *self),
                self.state == old(self).state,
                l == old(self).interfaces(),
                i <= l.len(),
                self.interfaces() == stopped(l, i as int),
                actions@ == stop_actions(l, i as nat),
            decreases l.len() - i,
        {
            if self.arenas.interfaces.list[i].state.active {
                self.arenas.interfaces.list[i].state.active = false;
                actions.push(
                    Action::StopInterface {
                        iface: i,
                        reason: InterfaceInactiveReason::InstanceDown,
                    },
                );
            }
            i = i + 1;
            assert(self.interfaces() =~= stopped(l, i as int));
        }
        // Clear instance state, and the backoff timer with it.
        if let Some(state) = &self.state {
            if state.lsp_orig_backoff {
                actions.push(Action::StopLspOriginateTimer);
            }
        }
        self.state = None;
        assert(actions@ =~= down_actions(*old(self)));
        actions
    }

    /// Resets the IS-IS instance: stops it if it is up, and starts it again
    /// if it may run.
    pub fn reset(&mut self) -> (r: Vec<Action>)
        ensures
            same_setup(*old(self), *final(self)),
            if old(self).state is None {
                *final(self) == *old(self) && r@ == Seq::<Action>::empty()
            } else {
                let n = old(self).interfaces().len();
                &&& final(self).interfaces() == stopped(old(self).interfaces(), n as int)
                &&& if old(self).ready() {
                    &&& final(self).just_started()
                    &&& r@ == down_actions(*old(self)) + start_actions(n)
                } else {
                    &&& final(self).state is None
                    &&& r@ == down_actions(*old(self))
                }
            },
    {
        let mut actions: Vec<Action> = Vec::new();
        if self.is_active() {
            actions = self.stop();
            let ghost stops = actions@;
            let mut more = self.update();
            let ghost starts = more@;
            actions.append(&mut more);
            assert(actions@ =~= stops + starts);
            assert(stops + Seq::<Action>::empty() =~= stops);
        }
        actions
    }

    /// Returns whether the IS-IS instance is operational.
    pub fn is_active(&self) -> (r: bool)
        ensures
            r == (self.state is Some),
    {
        self.state.is_some()
    }

    /// Returns whether the instance is ready for IS-IS operation.
    pub fn is_ready(&self) -> (r: Result<(), InstanceInactiveReason>)
        ensures
            r == (if self.ready() {
                Ok::<(), InstanceInactiveReason>(())
            } else {
                Err(InstanceInactiveReason::AdminDown)
            }),
    {
        if !self.config.enabled || self.config.system_id.is_none() {
            return Err(InstanceInactiveReason::AdminDown);
        }
        Ok(())
    }

    /// Processes a message from the bus: messages that are of no interest
    /// leave the instance as it is.
    pub fn process_ibus_msg(&mut self, msg: IbusMsg) -> (r: Vec<Action>)
        requires
            old(self).wf(),
        ensures
            final(self).wf(),
            match msg {
                IbusMsg::RouterIdUpdate(router_id) => {
                    &&& *final(self) == (Instance {
                        system: InstanceSys { router_id },
                        ..*old(self)
                    })
                    &&& r@ == Seq::<Action>::empty()
                },
                IbusMsg::InterfaceUpd(msg) => iface_updated(*old(self), msg, *final(self), r@),
                IbusMsg::InterfaceAddressAdd(msg) => addr_changed(
                    *old(self),
                    msg,
                    true,
                    *final(self),
                    r@,
                ),
                IbusMsg::InterfaceAddressDel(msg) => addr_changed(
                    *old(self),
                    msg,
                    false,
                    *final(self),
                    r@,
                ),
                _ => *final(self) == *old(self) && r@ == Seq::<Action>::empty(),
            },
    {
        match msg {
            // Router ID update notification.
            IbusMsg::RouterIdUpdate(router_id) => {
                process_router_id_update(self, router_id);
                Vec::new()
            },
            // Interface update notification.
            IbusMsg::InterfaceUpd(msg) => process_iface_update(self, msg),
            // Interface address addition notification.
            IbusMsg::InterfaceAddressAdd(msg) => process_addr_add(self, msg),
            // Interface address deletion notification.
            IbusMsg::InterfaceAddressDel(msg) => process_addr_del(self, msg),
            // Ignore other events.
            _ => Vec::new(),
        }
    }

    /// Tells what a message from a task means for the instance: nothing if it
    /// isn't active.
    pub fn process_protocol_msg(&self, msg: ProtocolInputMsg) -> (r: Option<Event>)
        ensures
            r == (if self.state is Some {
                Some(event_of(msg))
            } else {
                None
            }),
    {
        // Ignore event if the instance isn't active.
        if !self.is_active() {
            return None;
        }
        Some(process_protocol_msg(msg))
    }

    /// Returns a view struct for the instance if it's operational.
    pub fn as_up(&mut self) -> (r: Option<(InstanceUpView<'_>, &mut InstanceArenas)>)
        ensures
            match r {
                Some((up, arenas)) => {
                    &&& old(self).state is Some
                    &&& up.name@ == old(self).name@
                    &&& *up.system == old(self).system
                    &&& *up.config == old(self).config
                    &&& *up.state == old(self).state.unwrap()
                    &&& *arenas == old(self).arenas
                    &&& *final(self) == (Instance {
                        state: Some(*final(up.state)),
                        arenas: *final(arenas),
                        ..*old(self)
                    })
                },
                None => old(self).state is None && *final(self) == *old(self),
            },
    {
        if let Some(state) = &mut self.state {
            let instance = InstanceUpView {
                name: self.name.as_str(),
                system: &self.system,
                config: &self.config,
                state,
            };
            Some((instance, &mut self.arenas))
        } else {
            None
        }
    }
}

/// The pending levels once one more type is added.
pub open spec fn pending_with(pending: Option<LevelType>, level_type: LevelType) -> LevelType {
    match pending {
        Some(pending_level) => level_type.spec_union(pending_level),
        None => level_type,
    }
}

impl InstanceState {
    /// Whether LSPs are to be originated at once if `elapsed` seconds have
    /// passed since the last time: no backoff is on, and the minimum interval
    /// is over.
    pub open spec fn origination_due(self, elapsed: u64) -> bool {
        &&& !self.lsp_orig_backoff
        &&& self.lsp_orig_last is Some ==> elapsed >= LSP_MIN_GEN_INTERVAL
    }

    /// Whether a backoff has to start.
    pub open spec fn backoff_due(self, elapsed: u64) -> bool {
        &&& !self.lsp_orig_backoff
        &&& self.lsp_orig_last is Some
        &&& elapsed < LSP_MIN_GEN_INTERVAL
    }
}

impl InstanceUpView<'_> {
    /// Schedules the origination of LSPs of the given type, `elapsed` seconds
    /// after it last happened, if it did.
    pub fn schedule_lsp_origination_after(&mut self, level_type: LevelType, elapsed: u64) -> (r:
        Option<Action>)
        ensures
            r == (if old(self).state.origination_due(elapsed) {
                Some(Action::OriginateLsps)
            } else if old(self).state.backoff_due(elapsed) {
                Some(Action::StartLspOriginateTimer)
            } else {
                None
            }),
            *final(self).state == (InstanceState {
                lsp_orig_pending: Some(pending_with(old(self).state.lsp_orig_pending, level_type)),
                lsp_orig_backoff: old(self).state.lsp_orig_backoff
                    || old(self).state.backoff_due(elapsed),
                ..*old(self).state
            }),
            *final(final(self).state) == *final(old(self).state),
            final(self).name == old(self).name,
            final(self).system == old(self).system,
            final(self).config == old(self).config,
    {
        // Update pending LSP origination with the union of the current and
        // new level.
        self.state.lsp_orig_pending = match self.state.lsp_orig_pending {
            Some(pending_level) => Some(level_type.union(pending_level)),
            None => Some(level_type),
        };
        // If LSP origination is currently in backoff, do nothing.
        if self.state.lsp_orig_backoff {
            return None;
        }

        // If the minimum interval since the last LSP origination hasn't
        // passed, initiate a backoff timer and return.
        if self.state.lsp_orig_last.is_some() && elapsed < LSP_MIN_GEN_INTERVAL {
            self.state.lsp_orig_backoff = true;
            return Some(Action::StartLspOriginateTimer);
        }

        // Trigger LSP origination.
        Some(Action::OriginateLsps)
    }

    /// Schedules the origination of LSPs of the given type, after the time that
    /// the clock shows to have passed since it last happened.
    pub fn schedule_lsp_origination(&mut self, level_type: LevelType) -> (r: Option<Action>)
        ensures
            scheduled(*old(self).state, level_type, *final(self).state),
            r == scheduling_action(*old(self).state, *final(self).state),
            *final(final(self).state) == *final(old(self).state),
            final(self).name == old(self).name,
            final(self).system == old(self).system,
            final(self).config == old(self).config,
    {
        let elapsed: u64 = match &self.state.lsp_orig_last {
            Some(last) => elapsed_secs(last),
            None => 0,
        };
        self.schedule_lsp_origination_after(level_type, elapsed)
    }
}

/// What scheduling the origination of LSPs does to the state `a`: a backoff
/// goes on, and one starts if LSPs were originated before and the clock shows
/// that the minimum interval is not over.
pub open spec fn scheduled(a: InstanceState, level_type: LevelType, b: InstanceState) -> bool {
    &&& b == (InstanceState {
        lsp_orig_pending: Some(pending_with(a.lsp_orig_pending, level_type)),
        lsp_orig_backoff: b.lsp_orig_backoff,
        ..a
    })
    &&& match a.lsp_orig_last {
        Some(t) => exists|n: u64| #[trigger]
            seconds_since(t, n) && b.lsp_orig_backoff == (a.lsp_orig_backoff || a.backoff_due(n)),
        None => b.lsp_orig_backoff == a.lsp_orig_backoff,
    }
}

/// What is asked for when scheduling leads from the state `a` to `b`: nothing
/// while a backoff is on, the timer if one starts, else LSPs at once.
pub open spec fn scheduling_action(a: InstanceState, b: InstanceState) -> Option<Action> {
    if a.lsp_orig_backoff {
        None
    } else if b.lsp_orig_backoff {
        Some(Action::StartLspOriginateTimer)
    } else {
        Some(Action::OriginateLsps)
    }
}

/// What a message from a task means.
pub open spec fn event_of(msg: ProtocolInputMsg) -> Event {
    match msg {
        ProtocolInputMsg::NetRxPdu(m) => Event::Pdu {
            iface_key: m.iface_key,
            src: m.src,
            bytes: m.bytes,
            pdu: m.pdu,
        },
        ProtocolInputMsg::AdjHoldTimer(AdjHoldTimerMsg::Broadcast { iface_key, adj_key, level }) =>
        Event::LanAdjHoldTimerExpiry { iface_key, adj_key, level },
        ProtocolInputMsg::AdjHoldTimer(AdjHoldTimerMsg::PointToPoint { iface_key }) =>
        Event::P2pAdjHoldTimerExpiry { iface_key },
        ProtocolInputMsg::DisElection(m) => Event::DisElection {
            iface_key: m.iface_key,
            level: m.level,
        },
        ProtocolInputMsg::SendPsnp(m) => Event::SendPsnp { iface_key: m.iface_key, level: m.level },
        ProtocolInputMsg::SendCsnp(m) => Event::SendCsnp { iface_key: m.iface_key, level: m.level },
        ProtocolInputMsg::LspOriginate(_) => Event::LspOriginate,
        ProtocolInputMsg::LspPurge(m) => Event::LspPurge {
            level: m.level,
            lse_key: m.lse_key,
            reason: m.reason,
        },
        ProtocolInputMsg::LspDelete(m) => Event::LspDelete { level: m.level, lse_key: m.lse_key },
        ProtocolInputMsg::LspRefresh(m) => Event::LspRefresh { level: m.level, lse_key: m.lse_key },
    }
}

/// Tells what a message from a task means.
pub fn process_protocol_msg(msg: ProtocolInputMsg) -> (r: Event)
    ensures
        r == event_of(msg),
{
    match msg {
        // Received network PDU.
        ProtocolInputMsg::NetRxPdu(msg) => Event::Pdu {
            iface_key: msg.iface_key,
            src: msg.src,
            bytes: msg.bytes,
            pdu: msg.pdu,
        },
        // Adjacency hold timer event.
        ProtocolInputMsg::AdjHoldTimer(msg) => match msg {
            AdjHoldTimerMsg::Broadcast { iface_key, adj_key, level } => {
                Event::LanAdjHoldTimerExpiry { iface_key, adj_key, level }
            },
            AdjHoldTimerMsg::PointToPoint { iface_key } => {
                Event::P2pAdjHoldTimerExpiry { iface_key }
            },
        },
        // Request to run DIS election.
        ProtocolInputMsg::DisElection(msg) => Event::DisElection {
            iface_key: msg.iface_key,
            level: msg.level,
        },
        // Request to run send PSNP(s).
        ProtocolInputMsg::SendPsnp(msg) => Event::SendPsnp {
            iface_key: msg.iface_key,
            level: msg.level,
        },
        // Request to run send CSNP(s).
        ProtocolInputMsg::SendCsnp(msg) => Event::SendCsnp {
            iface_key: msg.iface_key,
            level: msg.level,
        },
        // LSP origination event.
        ProtocolInputMsg::LspOriginate(_) => Event::LspOriginate,
        // LSP purge event.
        ProtocolInputMsg::LspPurge(msg) => Event::LspPurge {
            level: msg.level,
            lse_key: msg.lse_key,
            reason: msg.reason,
        },
        // LSP delete event.
        ProtocolInputMsg::LspDelete(msg) => Event::LspDelete {
            level: msg.level,
            lse_key: msg.lse_key,
        },
        // LSP refresh event.
        ProtocolInputMsg::LspRefresh(msg) => Event::LspRefresh {
            level: msg.level,
            lse_key: msg.lse_key,
        },
    }
}

/// An update settles the matter: one more finds nothing to do.
pub proof fn lemma_update_settles(
    a: Instance,
    b: Instance,
    first: Seq<Action>,
    c: Instance,
    second: Seq<Action>,
)
    requires
        updated(a, b, first),
        updated(b, c, second),
    ensures
        c == b,
        second == Seq::<Action>::empty(),
{
}

/// Exactly the interfaces that are active are stopped when the instance stops,
/// and none is active afterwards.
pub proof fn lemma_stop_actions(l: Seq<Interface>, n: nat)
    requires
        n <= l.len() <= usize::MAX,
    ensures
        forall|i: int|
            0 <= i < n ==> (stop_actions(l, n).contains(
                Action::StopInterface {
                    iface: i as usize,
                    reason: InterfaceInactiveReason::InstanceDown,
                },
            ) <==> (#[trigger] l[i]).state.active),
        forall|k: int|
            0 <= k < stop_actions(l, n).len() ==> {
                &&& #[trigger] stop_actions(l, n)[k] matches Action::StopInterface { iface, reason }
                &&& iface < n
            },
        forall|i: int| 0 <= i < n ==> !(#[trigger] stopped(l, n as int)[i]).state.active,
    decreases n,
{
    if n > 0 {
        let m = (n - 1) as nat;
        lemma_stop_actions(l, m);
        let before = stop_actions(l, m);
        let after = stop_actions(l, n);
        let last = Action::StopInterface {
            iface: m as usize,
            reason: InterfaceInactiveReason::InstanceDown,
        };
        if l[m as int].state.active {
            assert(after[before.len() as int] == last);
        }
        assert forall|i: int| 0 <= i < n implies (after.contains(
            Action::StopInterface {
                iface: i as usize,
                reason: InterfaceInactiveReason::InstanceDown,
            },
        ) <==> (#[trigger] l[i]).state.active) by {
            let x = Action::StopInterface {
                iface: i as usize,
                reason: InterfaceInactiveReason::InstanceDown,
            };
            if i < m {
                if before.contains(x) {
                    let k = choose|k: int| 0 <= k < before.len() && before[k] == x;
                    assert(after[k] == x);
                }
                if after.contains(x) {
                    let k = choose|k: int| 0 <= k < after.len() && after[k] == x;
                    assert(before[k] == x);
                }
            } else if after.contains(x) && !l[i].state.active {
                let k = choose|k: int| 0 <= k < after.len() && after[k] == x;
                assert(before[k] == x);
            }
        }
    }
}

/// Scheduling forgets no level that waits, and adds none that was not asked
/// for.
pub proof fn lemma_pending_with(
    pending: Option<LevelType>,
    level_type: LevelType,
    level: LevelNumber,
)
    ensures
        pending_with(pending, level_type).has(level) <==> level_type.has(level) || (
        pending matches Some(p) && p.has(level)),
{
    if let Some(p) = pending {
        assert(p.has(LevelNumber::L1) || p.has(LevelNumber::L2));
        assert(level_type.has(LevelNumber::L1) || level_type.has(LevelNumber::L2));
    }
}

/// Whoever schedules again while a backoff timer runs starts no second timer,
/// and originates nothing.
pub proof fn lemma_one_backoff_timer(
    a: InstanceState,
    level_type: LevelType,
    b: InstanceState,
    again: LevelType,
    c: InstanceState,
)
    requires
        scheduled(a, level_type, b),
        scheduled(b, again, c),
        scheduling_action(a, b) == Some(Action::StartLspOriginateTimer),
    ensures
        scheduling_action(b, c) is None,
        c.lsp_orig_backoff,
{
}

/// Whether nothing has been counted.
pub open spec fn uncounted(c: InstanceCounters) -> bool {
    &&& c.corrupted_lsps == 0
    &&& c.auth_type_fails == 0
    &&& c.auth_fails == 0
    &&& c.database_overload == 0
    &&& c.own_lsp_purge == 0
    &&& c.manual_addr_drop_from_area == 0
    &&& c.max_sequence == 0
    &&& c.seqno_skipped == 0
    &&& c.id_len_mismatch == 0
    &&& c.partition_changes == 0
    &&& c.lsp_errors == 0
    &&& c.spf_runs == 0
}

/// Whether the state is that of an instance that has only just come up: nothing
/// has been originated or counted, and the first LSPs of both levels wait.
pub open spec fn fresh(state: InstanceState) -> bool {
    &&& state.lsp_orig_last is None
    &&& !state.lsp_orig_backoff
    &&& state.lsp_orig_pending matches Some(levels)
    &&& levels.has(LevelNumber::L1) && levels.has(LevelNumber::L2)
    &&& uncounted(state.counters.l1)
    &&& uncounted(state.counters.l2)
    &&& state.lsp_log_next_id == 0
    &&& wall_clock_reading(state.discontinuity_time)
}

/// Whether what is asked for is the start of `n` interfaces: one question about
/// each, in order, and then the first LSPs.
pub open spec fn starts_all(n: int, actions: Seq<Action>) -> bool {
    &&& actions.len() == n + 1
    &&& forall|i: int|
        0 <= i < n ==> #[trigger] actions[i] == (Action::QuerySouthbound { iface: i as usize })
    &&& actions[n] == Action::OriginateLsps
}

/// Whether what is asked for is the end of the instance: first, in order, that
/// each interface stops that is active, once, and no other; then that the
/// backoff timer stops, if it runs; and nothing else.
pub open spec fn stops_all(l: Seq<Interface>, timer: bool, actions: Seq<Action>) -> bool {
    let n = if timer {
        actions.len() - 1
    } else {
        actions.len() as int
    };
    &&& timer ==> actions.len() > 0 && actions.last() == Action::StopLspOriginateTimer
    &&& forall|k: int|
        0 <= k < n ==> {
            &&& #[trigger] actions[k] matches Action::StopInterface { iface, reason }
            &&& iface < l.len()
            &&& l[iface as int].state.active
            &&& reason == InterfaceInactiveReason::InstanceDown
        }
    &&& forall|j: int, k: int|
        0 <= j < k < n ==> {
            &&& #[trigger] actions[j] matches Action::StopInterface { iface: first, .. }
            &&& #[trigger] actions[k] matches Action::StopInterface { iface: second, .. }
            &&& first < second
        }
    &&& forall|i: int|
        0 <= i < l.len() && (#[trigger] l[i]).state.active ==> exists|k: int|
            0 <= k < n && #[trigger] actions[k] == (Action::StopInterface {
                iface: i as usize,
                reason: InterfaceInactiveReason::InstanceDown,
            })
}

/// Whether the interfaces are the same, but none of them is active any more.
pub open spec fn all_inactive(a: Seq<Interface>, b: Seq<Interface>) -> bool {
    &&& b.len() == a.len()
    &&& forall|i: int|
        0 <= i < a.len() ==> {
            &&& !(#[trigger] b[i]).state.active
            &&& b[i].name == a[i].name
            &&& b[i].system == a[i].system
            &&& b[i].config == a[i].config
        }
}

proof fn lemma_stops_in_order(l: Seq<Interface>, n: nat)
    requires
        n <= l.len() <= usize::MAX,
    ensures
        stops_all(l.take(n as int), false, stop_actions(l, n)),
    decreases n,
{
    if n > 0 {
        let m = (n - 1) as nat;
        lemma_stops_in_order(l, m);
        let before = stop_actions(l, m);
        let after = stop_actions(l, n);
        let p = l.take(m as int);
        let q = l.take(n as int);
        assert forall|k: int| 0 <= k < after.len() implies {
            &&& #[trigger] after[k] matches Action::StopInterface { iface, reason }
            &&& iface < q.len()
            &&& q[iface as int].state.active
            &&& reason == InterfaceInactiveReason::InstanceDown
        } by {
            if k < before.len() {
                assert(after[k] == before[k]);
                let iface = before[k]->StopInterface_iface;
                assert(p[iface as int] == q[iface as int]);
            } else {
                assert(q[m as int] == l[m as int]);
            }
        }
        assert forall|j: int, k: int| 0 <= j < k < after.len() implies {
            &&& #[trigger] after[j] matches Action::StopInterface { iface: first, .. }
            &&& #[trigger] after[k] matches Action::StopInterface { iface: second, .. }
            &&& first < second
        } by {
            assert(after[j] == before[j]);
            if k < before.len() {
                assert(after[k] == before[k]);
            }
        }
        assert forall|i: int| 0 <= i < q.len() && (#[trigger] q[i]).state.active implies exists|
            k: int,
        |
            0 <= k < after.len() && #[trigger] after[k] == (Action::StopInterface {
                iface: i as usize,
                reason: InterfaceInactiveReason::InstanceDown,
            }) by {
            if i < m {
                assert(p[i] == q[i]);
                let k = choose|k: int|
                    0 <= k < before.len() && #[trigger] before[k] == (Action::StopInterface {
                        iface: i as usize,
                        reason: InterfaceInactiveReason::InstanceDown,
                    });
                assert(after[k] == before[k]);
            } else {
                assert(after[before.len() as int] == (Action::StopInterface {
                    iface: i as usize,
                    reason: InterfaceInactiveReason::InstanceDown,
                }));
            }
        }
    }
}

proof fn lemma_down(a: Instance)
    requires
        a.state is Some,
        a.interfaces().len() <= usize::MAX,
    ensures
        stops_all(a.interfaces(), a.state.unwrap().lsp_orig_backoff, down_actions(a)),
{
    let l = a.interfaces();
    let stops = stop_actions(l, l.len());
    let actions = down_actions(a);
    lemma_stops_in_order(l, l.len());
    assert(l.take(l.len() as int) =~= l);
    assert forall|k: int| 0 <= k < stops.len() implies #[trigger] actions[k] == stops[k] by {}
    assert forall|i: int| 0 <= i < l.len() && (#[trigger] l[i]).state.active implies exists|k: int|
        0 <= k < stops.len() && #[trigger] actions[k] == (Action::StopInterface {
            iface: i as usize,
            reason: InterfaceInactiveReason::InstanceDown,
        }) by {
        let k = choose|k: int|
            0 <= k < stops.len() && #[trigger] stops[k] == (Action::StopInterface {
                iface: i as usize,
                reason: InterfaceInactiveReason::InstanceDown,
            });
        assert(actions[k] == stops[k]);
    }
}

/// After an update the instance is up exactly if it is enabled and has a system
/// ID, whatever it was before. One that comes up starts afresh and asks about
/// all its interfaces; one that goes down takes all its interfaces and its
/// timer with it; else nothing happens. The setup stays as it is.
pub proof fn lemma_update(a: Instance, b: Instance, r: Vec<Action>)
    requires
        exists|x: &mut Instance| #[trigger]
            call_ensures(Instance::update, (x,), r) && *x == a && *final(x) == b,
        a.arenas.interfaces.list@.len() <= usize::MAX,
    ensures
        b.state is Some <==> a.config.enabled && a.config.system_id is Some,
        b.name == a.name,
        b.system == a.system,
        b.config == a.config,
        a.state is Some == b.state is Some ==> b == a && r@.len() == 0,
        a.state is None && b.state is Some ==> {
            &&& fresh(b.state.unwrap())
            &&& b.arenas.interfaces.list@ == a.arenas.interfaces.list@
            &&& starts_all(a.arenas.interfaces.list@.len() as int, r@)
        },
        a.state is Some && b.state is None ==> {
            &&& all_inactive(a.arenas.interfaces.list@, b.arenas.interfaces.list@)
            &&& stops_all(a.arenas.interfaces.list@, a.state.unwrap().lsp_orig_backoff, r@)
        },
{
    if a.state is Some {
        lemma_down(a);
    }
}

/// An instance that is shut down takes all its interfaces and its timer with
/// it. One that is down already asks for nothing.
pub proof fn lemma_shutdown(a: Instance, r: Vec<Action>)
    requires
        call_ensures(Instance::shutdown, (a,), r),
        a.arenas.interfaces.list@.len() <= usize::MAX,
    ensures
        match a.state {
            Some(state) => stops_all(a.arenas.interfaces.list@, state.lsp_orig_backoff, r@),
            None => r@.len() == 0,
        },
{
    if a.state is Some {
        lemma_down(a);
    }
}

/// A reset of an instance that is up is its end, followed by a new start if it
/// may run: afterwards no interface is active, and nothing is left of the old
/// state. An instance that is down stays so.
pub proof fn lemma_reset(a: Instance, b: Instance, r: Vec<Action>)
    requires
        exists|x: &mut Instance| #[trigger]
            call_ensures(Instance::reset, (x,), r) && *x == a && *final(x) == b,
        a.arenas.interfaces.list@.len() <= usize::MAX,
    ensures
        b.name == a.name,
        b.system == a.system,
        b.config == a.config,
        a.state is None ==> b == a && r@.len() == 0,
        a.state is Some ==> {
            &&& b.state is Some <==> a.config.enabled && a.config.system_id is Some
            &&& b.state matches Some(state) ==> fresh(state)
            &&& all_inactive(a.arenas.interfaces.list@, b.arenas.interfaces.list@)
            &&& exists|stops: Seq<Action>, starts: Seq<Action>|
                {
                    &&& r@ == #[trigger] (stops + starts)
                    &&& stops_all(
                        a.arenas.interfaces.list@,
                        a.state.unwrap().lsp_orig_backoff,
                        stops,
                    )
                    &&& if b.state is Some {
                        starts_all(a.arenas.interfaces.list@.len() as int, starts)
                    } else {
                        starts.len() == 0
                    }
                }
        },
{
    if a.state is Some {
        lemma_down(a);
        let stops = down_actions(a);
        let starts = if a.ready() {
            start_actions(a.interfaces().len())
        } else {
            Seq::empty()
        };
        assert(r@ =~= stops + starts);
    }
}

/// A new instance has nothing but its name, is enabled, but may not run before
/// it has a system ID: an update finds nothing to do. First of all it asks for
/// the Router ID.
pub proof fn lemma_new_instance(name: String, a: Instance, b: Instance, r: Vec<Action>, ask: Action)
    requires
        call_ensures(Instance::new, (name,), a),
        exists|x: &mut Instance| #[trigger]
            call_ensures(Instance::update, (x,), r) && *x == a && *final(x) == b,
        call_ensures(Instance::init, (&a,), ask),
    ensures
        a.name == name,
        a.system.router_id is None,
        a.config.enabled,
        a.config.system_id is None,
        a.state is None,
        a.arenas.interfaces.list@.len() == 0,
        b == a,
        r@.len() == 0,
        ask == Action::QueryRouterId,
{
}

/// An instance is ready exactly if it is enabled and has a system ID, and is
/// active exactly if it has a state. Nothing else matters.
pub proof fn lemma_ready_and_active(
    a: Instance,
    ready: Result<(), InstanceInactiveReason>,
    active: bool,
)
    requires
        call_ensures(Instance::is_ready, (&a,), ready),
        call_ensures(Instance::is_active, (&a,), active),
    ensures
        ready is Ok <==> a.config.enabled && a.config.system_id is Some,
        ready matches Err(reason) ==> reason == InstanceInactiveReason::AdminDown,
        active <==> a.state is Some,
{
}

/// Messages from the bus that tell nothing of the system's Router ID or of its
/// interfaces pass by.
pub proof fn lemma_other_msgs_ignored(a: Instance, msg: IbusMsg, b: Instance, r: Vec<Action>)
    requires
        exists|x: &mut Instance| #[trigger]
            call_ensures(Instance::process_ibus_msg, (x, msg), r) && *x == a && *final(x) == b,
        msg is RouteIpAdd || msg is RouteIpDel || msg is Other,
    ensures
        b == a,
        r@.len() == 0,
{
}

/// LSPs are originated at once unless a backoff is on or the last origination
/// is less than five seconds ago; in the latter case a backoff starts, with its
/// timer. A backoff that is on goes on, and nothing else happens. The levels
/// that wait are those that waited before and those that are asked for now.
pub proof fn lemma_schedule(
    a: InstanceState,
    level_type: LevelType,
    elapsed: u64,
    b: InstanceState,
    r: Option<Action>,
)
    requires
        exists|x: &mut InstanceUpView<'_>| #[trigger]
            call_ensures(
                InstanceUpView::schedule_lsp_origination_after,
                (x, level_type, elapsed),
                r,
            ) && *x.state == a && *final(x).state == b,
    ensures
        a.lsp_orig_backoff ==> r is None,
        r == Some(Action::OriginateLsps) <==> !a.lsp_orig_backoff && (a.lsp_orig_last is None
            || elapsed >= 5),
        r == Some(Action::StartLspOriginateTimer) <==> !a.lsp_orig_backoff && b.lsp_orig_backoff,
        b.lsp_orig_backoff <==> r != Some(Action::OriginateLsps),
        b.lsp_orig_pending matches Some(levels) && forall|level: LevelNumber| #[trigger]
            levels.has(level) <==> level_type.has(level) || (a.lsp_orig_pending matches Some(p)
                && p.has(level)),
        b.lsp_orig_last == a.lsp_orig_last,
        b.counters == a.counters,
        b.discontinuity_time == a.discontinuity_time,
        b.lsp_log_next_id == a.lsp_log_next_id,
{
    let levels = b.lsp_orig_pending.unwrap();
    assert forall|level: LevelNumber| #[trigger] levels.has(level) <==> level_type.has(level) || (
    a.lsp_orig_pending matches Some(p) && p.has(level)) by {
        lemma_pending_with(a.lsp_orig_pending, level_type, level);
    }
}

/// The same, by the clock: how many seconds have passed since the last
/// origination is what the clock shows.
pub proof fn lemma_schedule_by_clock(
    a: InstanceState,
    level_type: LevelType,
    b: InstanceState,
    r: Option<Action>,
)
    requires
        exists|x: &mut InstanceUpView<'_>| #[trigger]
            call_ensures(InstanceUpView::schedule_lsp_origination, (x, level_type), r) && *x.state
                == a && *final(x).state == b,
    ensures
        a.lsp_orig_backoff ==> r is None,
        !a.lsp_orig_backoff ==> match a.lsp_orig_last {
            Some(t) => exists|n: u64| #[trigger]
                seconds_since(t, n) && r == (if n >= 5 {
                    Some(Action::OriginateLsps)
                } else {
                    Some(Action::StartLspOriginateTimer)
                }),
            None => r == Some(Action::OriginateLsps),
        },
        b.lsp_orig_backoff <==> r != Some(Action::OriginateLsps),
        b.lsp_orig_pending matches Some(levels) && forall|level: LevelNumber| #[trigger]
            levels.has(level) <==> level_type.has(level) || (a.lsp_orig_pending matches Some(p)
                && p.has(level)),
        b.lsp_orig_last == a.lsp_orig_last,
        b.counters == a.counters,
        b.discontinuity_time == a.discontinuity_time,
        b.lsp_log_next_id == a.lsp_log_next_id,
{
    let levels = b.lsp_orig_pending.unwrap();
    assert forall|level: LevelNumber| #[trigger] levels.has(level) <==> level_type.has(level) || (
    a.lsp_orig_pending matches Some(p) && p.has(level)) by {
        lemma_pending_with(a.lsp_orig_pending, level_type, level);
    }
}

/// The level that a message names.
pub open spec fn msg_level(msg: ProtocolInputMsg) -> Option<LevelNumber> {
    match msg {
        ProtocolInputMsg::AdjHoldTimer(AdjHoldTimerMsg::Broadcast { level, .. }) => Some(level),
        ProtocolInputMsg::DisElection(m) => Some(m.level),
        ProtocolInputMsg::SendPsnp(m) => Some(m.level),
        ProtocolInputMsg::SendCsnp(m) => Some(m.level),
        ProtocolInputMsg::LspPurge(m) => Some(m.level),
        ProtocolInputMsg::LspDelete(m) => Some(m.level),
        ProtocolInputMsg::LspRefresh(m) => Some(m.level),
        _ => None,
    }
}

/// The level that an event is about.
pub open spec fn event_level(event: Event) -> Option<LevelNumber> {
    match event {
        Event::LanAdjHoldTimerExpiry { level, .. } => Some(level),
        Event::DisElection { level, .. } => Some(level),
        Event::SendPsnp { level, .. } => Some(level),
        Event::SendCsnp { level, .. } => Some(level),
        Event::LspPurge { level, .. } => Some(level),
        Event::LspDelete { level, .. } => Some(level),
        Event::LspRefresh { level, .. } => Some(level),
        _ => None,
    }
}

/// The interface that a message names.
pub open spec fn msg_iface(msg: ProtocolInputMsg) -> Option<InterfaceKey> {
    match msg {
        ProtocolInputMsg::NetRxPdu(m) => Some(m.iface_key),
        ProtocolInputMsg::AdjHoldTimer(AdjHoldTimerMsg::Broadcast { iface_key, .. }) => Some(
            iface_key,
        ),
        ProtocolInputMsg::AdjHoldTimer(AdjHoldTimerMsg::PointToPoint { iface_key }) => Some(
            iface_key,
        ),
        ProtocolInputMsg::DisElection(m) => Some(m.iface_key),
        ProtocolInputMsg::SendPsnp(m) => Some(m.iface_key),
        ProtocolInputMsg::SendCsnp(m) => Some(m.iface_key),
        _ => None,
    }
}

/// The interface that an event is about.
pub open spec fn event_iface(event: Event) -> Option<InterfaceKey> {
    match event {
        Event::Pdu { iface_key, .. } => Some(iface_key),
        Event::LanAdjHoldTimerExpiry { iface_key, .. } => Some(iface_key),
        Event::P2pAdjHoldTimerExpiry { iface_key } => Some(iface_key),
        Event::DisElection { iface_key, .. } => Some(iface_key),
        Event::SendPsnp { iface_key, .. } => Some(iface_key),
        Event::SendCsnp { iface_key, .. } => Some(iface_key),
        _ => None,
    }
}

/// The LSP that a message names.
pub open spec fn msg_lsp(msg: ProtocolInputMsg) -> Option<LspEntryKey> {
    match msg {
        ProtocolInputMsg::LspPurge(m) => Some(m.lse_key),
        ProtocolInputMsg::LspDelete(m) => Some(m.lse_key),
        ProtocolInputMsg::LspRefresh(m) => Some(m.lse_key),
        _ => None,
    }
}

/// The LSP that an event is about.
pub open spec fn event_lsp(event: Event) -> Option<LspEntryKey> {
    match event {
        Event::LspPurge { lse_key, .. } => Some(lse_key),
        Event::LspDelete { lse_key, .. } => Some(lse_key),
        Event::LspRefresh { lse_key, .. } => Some(lse_key),
        _ => None,
    }
}

/// What a task tells reaches the handler of its kind as it is: the event is
/// about the level, the interface and the LSP that the message names, and
/// carries all that the message carries. An instance that is up deals with
/// every message, and one that is down with none.
pub proof fn lemma_dispatch(
    a: Instance,
    msg: ProtocolInputMsg,
    event: Event,
    r: Option<Event>,
)
    requires
        call_ensures(process_protocol_msg, (msg,), event),
        call_ensures(Instance::process_protocol_msg, (&a, msg), r),
    ensures
        r == (if a.state is Some {
            Some(event)
        } else {
            None
        }),
        event_level(event) == msg_level(msg),
        event_iface(event) == msg_iface(msg),
        event_lsp(event) == msg_lsp(msg),
        event is Pdu <==> msg is NetRxPdu,
        event is LanAdjHoldTimerExpiry || event is P2pAdjHoldTimerExpiry <==> msg is AdjHoldTimer,
        event is DisElection <==> msg is DisElection,
        event is SendPsnp <==> msg is SendPsnp,
        event is SendCsnp <==> msg is SendCsnp,
        event is LspOriginate <==> msg is LspOriginate,
        event is LspPurge <==> msg is LspPurge,
        event is LspDelete <==> msg is LspDelete,
        event is LspRefresh <==> msg is LspRefresh,
        msg matches ProtocolInputMsg::NetRxPdu(m) ==> (event matches Event::Pdu {
            src,
            bytes,
            pdu,
            ..
        } && src == m.src && bytes == m.bytes && pdu == m.pdu),
        msg matches ProtocolInputMsg::AdjHoldTimer(AdjHoldTimerMsg::Broadcast { adj_key: theirs, .. })
            ==> (event matches Event::LanAdjHoldTimerExpiry { adj_key, .. } && adj_key == theirs),
        msg matches ProtocolInputMsg::LspPurge(m) ==> (event matches Event::LspPurge { reason, .. }
            && reason == m.reason),
{
}

/// No two messages are taken for one another: what differs in the messages
/// differs in the events.
pub proof fn lemma_dispatch_injective(
    first: ProtocolInputMsg,
    second: ProtocolInputMsg,
    event: Event,
)
    requires
        call_ensures(process_protocol_msg, (first,), event),
        call_ensures(process_protocol_msg, (second,), event),
    ensures
        first == second,
{
}

/// The view of an instance is there exactly if the instance is up. It shows the
/// name, the system data and the configuration as they are, and what is written
/// to the state or to the arenas is written to the instance, and nothing else is.
pub proof fn lemma_view()
    ensures
        forall|x: &mut Instance, r: Option<(InstanceUpView<'_>, &mut InstanceArenas)>|
            #[trigger] call_ensures(Instance::as_up, (x,), r) ==> {
                &&& r is Some <==> x.state is Some
                &&& r is None ==> *final(x) == *x
                &&& r matches Some((up, arenas)) ==> {
                    &&& up.name@ == x.name@
                    &&& *up.system == x.system
                    &&& *up.config == x.config
                    &&& Some(*up.state) == x.state
                    &&& *arenas == x.arenas
                    &&& final(x).name == x.name
                    &&& final(x).system == x.system
                    &&& final(x).config == x.config
                    &&& final(x).state == Some(*final(up.state))
                    &&& final(x).arenas == *final(arenas)
                }
            },
{
}

/// What is there before anything is configured, told or counted.
pub proof fn lemma_defaults(
    counters: InstanceCounters,
    system: InstanceSys,
    config: InstanceCfg,
    arenas: InstanceArenas,
    state: InstanceState,
)
    requires
        call_ensures(<InstanceCounters as Default>::default, (), counters),
        call_ensures(<InstanceSys as Default>::default, (), system),
        call_ensures(<InstanceCfg as Default>::default, (), config),
        call_ensures(<InstanceArenas as Default>::default, (), arenas),
        call_ensures(InstanceState::new, (), state),
    ensures
        uncounted(counters),
        system.router_id is None,
        config.enabled && config.system_id is None,
        arenas.interfaces.list@.len() == 0,
        state.lsp_orig_last is None,
        !state.lsp_orig_backoff,
        state.lsp_orig_pending is None,
        uncounted(state.counters.l1) && uncounted(state.counters.l2),
        state.lsp_log_next_id == 0,
        wall_clock_reading(state.discontinuity_time),
{
}

} // verus!
