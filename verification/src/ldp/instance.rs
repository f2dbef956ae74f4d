//! The LDP instance, as far as interfaces deal with it.

use vstd::prelude::*;

use crate::ldp::interface::{Interface, InterfaceId};
use crate::utils::net::Ipv4Addr;

verus! {

/// A neighbor that hellos came from, on an interface.
#[derive(Clone, Copy, Debug, PartialEq, Eq, Structural)]
pub struct Adjacency {
    pub iface_id: InterfaceId,
    pub source: Ipv4Addr,
}

/// The IPv4 side of an instance that is up.
#[derive(Clone, Debug)]
pub struct InstanceIpv4State {
    pub trans_addr: Ipv4Addr,
    pub adjacencies: Vec<Adjacency>,
}

/// The state of an instance that is up.
#[derive(Clone, Debug)]
pub struct InstanceState {
    pub ipv4: InstanceIpv4State,
    pub cfg_seqno: u32,
}

/// An instance that is up.
#[derive(Clone, Debug)]
pub struct InstanceUp {
    pub interfaces: Vec<Interface>,
    pub state: InstanceState,
}

} // verus!
