//! The IGMP instance.

use vstd::prelude::*;

use crate::utils::clock::Timestamp;
use crate::utils::handle::{SocketHandle, TaskHandle};
use crate::utils::ibus::{IbusMsg, InterfaceUpdateMsg};
use crate::utils::net::Ipv4Addr;

verus! {

/// An IGMP instance.
#[derive(Debug)]
pub struct Instance {
    /// Instance name.
    pub name: String,
    /// Instance system data.
    pub system: InstanceSys,
    /// Instance configuration data.
    pub config: InstanceCfg,
    /// Instance state data.
    pub state: Option<InstanceState>,
    /// Instance interfaces.
    pub interfaces: Interfaces,
}

/// What the system tells: nothing so far.
#[derive(Clone, Copy, Debug, PartialEq, Eq, Structural)]
pub struct InstanceSys {}

/// Instance configuration: nothing so far.
#[derive(Clone, Copy, Debug, PartialEq, Eq, Structural)]
pub struct InstanceCfg {}

/// The state of an instance that is up.
#[derive(Clone, Copy, Debug, PartialEq, Eq, Structural)]
pub struct InstanceState {
    pub net: InstanceNet,
    pub statistics: Statistics,
}

/// The socket that packets are received on, and the task that reads it.
#[derive(Clone, Copy, Debug, PartialEq, Eq, Structural)]
pub struct InstanceNet {
    pub socket_rx: SocketHandle,
    pub net_rx_task: TaskHandle,
}

/// Statistics.
#[derive(Clone, Copy, Debug, PartialEq, Eq, Structural)]
pub struct Statistics {
    pub discontinuity_time: Timestamp,
    pub errors: ErrorStatistics,
    pub msgs_rcvd: MessageStatistics,
    pub msgs_sent: MessageStatistics,
}

/// How many messages were wrong.
#[derive(Clone, Copy, Debug, PartialEq, Eq, Structural)]
pub struct ErrorStatistics {
    pub total: u64,
    pub query: u64,
    pub report: u64,
    pub leave: u64,
    pub checksum: u64,
    pub too_short: u64,
}

/// How many messages there were.
#[derive(Clone, Copy, Debug, PartialEq, Eq, Structural)]
pub struct MessageStatistics {
    pub total: u64,
    pub query: u64,
    pub report: u64,
    pub leave: u64,
}

/// An interface that runs IGMP.
#[derive(Clone, Debug)]
pub struct Interface {
    pub name: String,
}

/// The interfaces. No two have the same name.
#[derive(Clone, Debug)]
pub struct Interfaces {
    pub list: Vec<Interface>,
}

impl Interfaces {
    /// Whether the interfaces have names of their own.
    pub open spec fn wf(self) -> bool {
        forall|i: int, j: int|
            0 <= i < j < self.list@.len() ==> (#[trigger] self.list@[i]).name@ != (
            #[trigger] self.list@[j]).name@
    }
}

/// A received packet.
#[derive(Clone, Debug, PartialEq, Eq)]
pub struct NetRxPacketMsg<P> {
    pub ifindex: u32,
    pub src: Ipv4Addr,
    pub packet: P,
}

/// What the tasks of an instance tell it.
#[derive(Clone, Debug, PartialEq, Eq)]
pub enum ProtocolInputMsg<P> {
    NetRxPacket(NetRxPacketMsg<P>),
}

/// What an instance has to deal with.
#[derive(Clone, Debug, PartialEq, Eq)]
pub enum Event<P> {
    Packet { ifindex: u32, src: Ipv4Addr, packet: P },
}

/// The parts of an instance that is up.
pub struct InstanceUpView<'a> {
    pub name: &'a str,
    pub system: &'a InstanceSys,
    pub config: &'a InstanceCfg,
    pub state: &'a mut InstanceState,
}

impl Default for ErrorStatistics {
    fn default() -> (r: ErrorStatistics)
        ensures
            r == ErrorStatistics::zero(),
    {
        ErrorStatistics { total: 0, query: 0, report: 0, leave: 0, checksum: 0, too_short: 0 }
    }
}

impl ErrorStatistics {
    /// No errors.
    pub open spec fn zero() -> ErrorStatistics {
        ErrorStatistics { total: 0, query: 0, report: 0, leave: 0, checksum: 0, too_short: 0 }
    }
}

impl Default for MessageStatistics {
    fn default() -> (r: MessageStatistics)
        ensures
            r == MessageStatistics::zero(),
    {
        MessageStatistics { total: 0, query: 0, report: 0, leave: 0 }
    }
}

impl MessageStatistics {
    /// No messages.
    pub open spec fn zero() -> MessageStatistics {
        MessageStatistics { total: 0, query: 0, report: 0, leave: 0 }
    }
}

impl Default for Statistics {
    /// Nothing counted, since the Unix epoch.
    fn default() -> (r: Statistics)
        ensures
            r == Statistics::zero(),
    {
        Statistics {
            discontinuity_time: Timestamp::default(),
            errors: ErrorStatistics::default(),
            msgs_rcvd: MessageStatistics::default(),
            msgs_sent: MessageStatistics::default(),
        }
    }
}

impl Statistics {
    /// Nothing counted, since the Unix epoch.
    pub open spec fn zero() -> Statistics {
        Statistics {
            discontinuity_time: Timestamp { secs: 0, nanos: 0 },
            errors: ErrorStatistics::zero(),
            msgs_rcvd: MessageStatistics::zero(),
            msgs_sent: MessageStatistics::zero(),
        }
    }
}

impl InstanceNet {
    /// The socket that packets are received on, with the task that was started
    /// to read it.
    pub fn new(socket_rx: SocketHandle, net_rx_task: TaskHandle) -> (r: InstanceNet)
        ensures
            r == (InstanceNet { socket_rx, net_rx_task }),
    {
        InstanceNet { socket_rx, net_rx_task }
    }
}

impl Instance {
    /// The socket and the task of the instance, if it is up.
    pub open spec fn net(self) -> Option<InstanceNet> {
        match self.state {
            Some(state) => Some(state.net),
            None => None,
        }
    }

    /// A new instance, which is not up.
    pub fn new(name: String) -> (r: Instance)
        ensures
            r.name == name,
            r.state is None,
            r.interfaces.wf(),
            r.interfaces.list@ == Seq::<Interface>::empty(),
    {
        Instance {
            name,
            system: InstanceSys {  },
            config: InstanceCfg {  },
            state: None,
            interfaces: Interfaces { list: Vec::new() },
        }
    }

    /// Brings the instance up, on a socket that packets are received on. All
    /// counters start from zero. Gives back the socket and the task that it
    /// had before, if any: they are to be closed.
    pub fn init(&mut self, net: InstanceNet) -> (r: Option<InstanceNet>)
        ensures
            r == old(self).net(),
            *final(self) == (Instance {
                state: Some(InstanceState { net, statistics: Statistics::zero() }),
                ..*old(self)
            }),
    {
        let replaced = match &self.state {
            Some(state) => Some(state.net),
            None => None,
        };
        // Store instance initial state.
        self.state = Some(InstanceState { net, statistics: Statistics::default() });
        replaced
    }

    /// Ends the instance. Gives back its socket and its task, if it is up: they
    /// are to be closed.
    pub fn shutdown(self) -> (r: Option<InstanceNet>)
        ensures
            r == self.net(),
    {
        match self.state {
            Some(state) => Some(state.net),
            None => None,
        }
    }

    /// Returns a view struct for the instance if it's operational.
    pub fn as_up(&mut self) -> (r: Option<(InstanceUpView<'_>, &mut Interfaces)>)
        ensures
            match r {
                Some((up, interfaces)) => {
                    &&& old(self).state is Some
                    &&& up.name@ == old(self).name@
                    &&& *up.system == old(self).system
                    &&& *up.config == old(self).config
                    &&& *up.state == old(self).state.unwrap()
                    &&& *interfaces == old(self).interfaces
                    &&& *final(self) == (Instance {
                        state: Some(*final(up.state)),
                        interfaces: *final(interfaces),
                        ..*old(self)
                    })
                },
                None => old(self).state is None && *final(self) == *old(self),
            },
    {
        if let Some(state) = &mut self.state {
            let instance = InstanceUpView {
                name: self.name.as_str(),
                system: &self.system,
                config: &self.config,
                state,
            };
            Some((instance, &mut self.interfaces))
        } else {
            None
        }
    }
}

/// Tells which interface update a message from the bus carries. Other messages
/// are of no interest.
pub fn process_ibus_msg(msg: IbusMsg) -> (r: Option<InterfaceUpdateMsg>)
    ensures
        r == (match msg {
            IbusMsg::InterfaceUpd(msg) => Some(msg),
            _ => None,
        }),
{
    match msg {
        // Interface update notification.
        IbusMsg::InterfaceUpd(msg) => Some(msg),
        // Ignore other events.
        _ => None,
    }
}

/// Tells what a message from a task means.
pub fn process_protocol_msg<P>(msg: ProtocolInputMsg<P>) -> (r: Event<P>)
    ensures
        r == (match msg {
            ProtocolInputMsg::NetRxPacket(m) => Event::Packet {
                ifindex: m.ifindex,
                src: m.src,
                packet: m.packet,
            },
        }),
{
    match msg {
        // Received network packet.
        ProtocolInputMsg::NetRxPacket(msg) => Event::Packet {
            ifindex: msg.ifindex,
            src: msg.src,
            packet: msg.packet,
        },
    }
}

/// A new instance has a name and nothing else. Bringing it up gives it exactly
/// the socket and the task that were made, and starts all counters from zero;
/// what it had before comes back to be closed. Ending it gives back what it has.
pub proof fn lemma_up_and_down(
    a: Instance,
    net: InstanceNet,
    b: Instance,
    replaced: Option<InstanceNet>,
    released: Option<InstanceNet>,
)
    requires
        exists|x: &mut Instance| #[trigger]
            call_ensures(Instance::init, (x, net), replaced) && *x == a && *final(x) == b,
        call_ensures(Instance::shutdown, (b,), released),
    ensures
        a.state is None ==> replaced is None,
        a.state matches Some(state) ==> replaced == Some(state.net),
        released == Some(net),
        b.state is Some,
        b.state.unwrap().net == net,
        ({
            let n = b.state.unwrap().statistics;
            &&& n.discontinuity_time.secs == 0 && n.discontinuity_time.nanos == 0
            &&& n.errors.total == 0 && n.errors.query == 0 && n.errors.report == 0
            &&& n.errors.leave == 0 && n.errors.checksum == 0 && n.errors.too_short == 0
            &&& n.msgs_rcvd.total == 0 && n.msgs_rcvd.query == 0 && n.msgs_rcvd.report == 0
                && n.msgs_rcvd.leave == 0
            &&& n.msgs_sent.total == 0 && n.msgs_sent.query == 0 && n.msgs_sent.report == 0
                && n.msgs_sent.leave == 0
        }),
        b.name == a.name,
        b.interfaces == a.interfaces,
{
}

/// An instance gives back a socket and a task at its end exactly if it is up.
pub proof fn lemma_shutdown(a: Instance, released: Option<InstanceNet>)
    requires
        call_ensures(Instance::shutdown, (a,), released),
    ensures
        released is Some <==> a.state is Some,
        a.state matches Some(state) ==> released == Some(state.net),
{
}

/// A new instance is down, and runs on no interface.
pub proof fn lemma_new_instance(name: String, a: Instance)
    requires
        call_ensures(Instance::new, (name,), a),
    ensures
        a.name == name,
        a.state is None,
        a.interfaces.list@.len() == 0,
{
}

/// The socket and the task are kept apart.
pub proof fn lemma_new_net(socket_rx: SocketHandle, net_rx_task: TaskHandle, net: InstanceNet)
    requires
        call_ensures(InstanceNet::new, (socket_rx, net_rx_task), net),
    ensures
        net.socket_rx == socket_rx,
        net.net_rx_task == net_rx_task,
{
}

/// Of the messages on the bus exactly the interface updates are of interest,
/// and they come through as they are.
pub proof fn lemma_bus(msg: IbusMsg, r: Option<InterfaceUpdateMsg>)
    requires
        call_ensures(process_ibus_msg, (msg,), r),
    ensures
        r is Some <==> msg is InterfaceUpd,
        r matches Some(upd) ==> msg == IbusMsg::InterfaceUpd(upd),
{
}

/// A packet reaches its handler with the interface and the source that it came
/// with.
pub proof fn lemma_packet<P>(msg: NetRxPacketMsg<P>, event: Event<P>)
    requires
        call_ensures(process_protocol_msg::<P>, (ProtocolInputMsg::NetRxPacket(msg),), event),
    ensures
        event matches Event::Packet { ifindex, src, packet } && ifindex == msg.ifindex && src
            == msg.src && packet == msg.packet,
{
}

/// The view of an instance is there exactly if the instance is up. What is written
/// to the state or to the interfaces is written to the instance, and nothing else
/// is.
pub proof fn lemma_view()
    ensures
        forall|x: &mut Instance, r: Option<(InstanceUpView<'_>, &mut Interfaces)>|
            #[trigger] call_ensures(Instance::as_up, (x,), r) ==> {
                &&& r is Some <==> x.state is Some
                &&& r is None ==> *final(x) == *x
                &&& r matches Some((up, interfaces)) ==> {
                    &&& up.name@ == x.name@
                    &&& *up.system == x.system
                    &&& *up.config == x.config
                    &&& Some(*up.state) == x.state
                    &&& *interfaces == x.interfaces
                    &&& final(x).name == x.name
                    &&& final(x).system == x.system
                    &&& final(x).config == x.config
                    &&& final(x).state == Some(*final(up.state))
                    &&& final(x).interfaces == *final(interfaces)
                }
            },
{
}

/// Counting starts from zero, at the Unix epoch.
pub proof fn lemma_statistics_start(
    n: Statistics,
    errors: ErrorStatistics,
    msgs: MessageStatistics,
)
    requires
        call_ensures(<Statistics as Default>::default, (), n),
        call_ensures(<ErrorStatistics as Default>::default, (), errors),
        call_ensures(<MessageStatistics as Default>::default, (), msgs),
    ensures
        errors.total == 0 && errors.query == 0 && errors.report == 0,
        errors.leave == 0 && errors.checksum == 0 && errors.too_short == 0,
        msgs.total == 0 && msgs.query == 0 && msgs.report == 0 && msgs.leave == 0,
        n.discontinuity_time.secs == 0 && n.discontinuity_time.nanos == 0,
        n.errors == errors && n.msgs_rcvd == msgs && n.msgs_sent == msgs,
{
}

} // verus!
