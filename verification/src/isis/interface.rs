//! Interfaces, as far as the instance deals with them.

use vstd::prelude::*;

use crate::utils::addr_set::AddrSet;
use crate::utils::ibus::InterfaceFlags;
use crate::utils::net::{Ipv4Network, Ipv6Network};

verus! {

/// An interface.
#[derive(Clone, Debug)]
pub struct Interface {
    pub name: String,
    pub system: InterfaceSys,
    pub config: InterfaceCfg,
    pub state: InterfaceState,
}

/// What the system tells of an interface.
#[derive(Clone, Debug)]
pub struct InterfaceSys {
    pub flags: InterfaceFlags,
    pub ifindex: Option<u32>,
    pub mtu: Option<u32>,
    pub mac_addr: Option<[u8; 6]>,
    pub ipv4_addr_list: AddrSet<Ipv4Network>,
    pub ipv6_addr_list: AddrSet<Ipv6Network>,
}

/// Interface configuration.
#[derive(Clone, Copy, Debug, PartialEq, Eq, Structural)]
pub struct InterfaceCfg {
    pub passive: bool,
}

/// Interface state.
#[derive(Clone, Copy, Debug, PartialEq, Eq, Structural)]
pub struct InterfaceState {
    pub active: bool,
}

impl InterfaceSys {
    /// Whether the address lists are in order.
    pub open spec fn wf(self) -> bool {
        self.ipv4_addr_list.wf() && self.ipv6_addr_list.wf()
    }
}

impl Default for InterfaceSys {
    fn default() -> (r: InterfaceSys)
        ensures
            r.wf(),
            r.flags == (InterfaceFlags { loopback: false, operative: false, broadcast: false }),
            r.ifindex is None,
            r.mtu is None,
            r.mac_addr is None,
            r.ipv4_addr_list.list@.len() == 0,
            r.ipv6_addr_list.list@.len() == 0,
    {
        InterfaceSys {
            flags: InterfaceFlags::default(),
            ifindex: None,
            mtu: None,
            mac_addr: None,
            ipv4_addr_list: AddrSet::new(),
            ipv6_addr_list: AddrSet::new(),
        }
    }
}

impl Interface {
    /// A new interface, of which nothing is known yet, and which is not active.
    pub fn new(name: String, config: InterfaceCfg) -> (r: Interface)
        ensures
            r.name == name,
            r.system.wf(),
            r.system.flags == (InterfaceFlags {
                loopback: false,
                operative: false,
                broadcast: false,
            }),
            r.system.ifindex is None,
            r.system.mtu is None,
            r.system.mac_addr is None,
            r.system.ipv4_addr_list.list@.len() == 0,
            r.system.ipv6_addr_list.list@.len() == 0,
            r.config == config,
            !r.state.active,
    {
        Interface {
            name,
            system: InterfaceSys::default(),
            config,
            state: InterfaceState { active: false },
        }
    }

    /// Whether no PDUs go out, only the addresses of the interface.
    pub open spec fn passive(self) -> bool {
        self.config.passive || self.system.flags.loopback
    }

    /// Returns whether the interface is passive.
    pub fn is_passive(&self) -> (r: bool)
        ensures
            r == self.passive(),
    {
        self.config.passive || self.system.flags.loopback
    }
}

/// All interfaces. No two have the same name.
#[derive(Clone, Debug)]
pub struct Interfaces {
    pub list: Vec<Interface>,
}

/// Whether the interfaces are in order, and have names of their own.
pub open spec fn interfaces_wf(l: Seq<Interface>) -> bool {
    &&& forall|i: int| 0 <= i < l.len() ==> (#[trigger] l[i]).system.wf()
    &&& forall|i: int, j: int|
        0 <= i < j < l.len() ==> (#[trigger] l[i]).name@ != (#[trigger] l[j]).name@
}

/// The place of the interface with the given name, if there is one.
pub open spec fn lookup(l: Seq<Interface>, name: Seq<char>) -> Option<int> {
    if exists|i: int| 0 <= i < l.len() && (#[trigger] l[i]).name@ == name {
        Some(choose|i: int| 0 <= i < l.len() && (#[trigger] l[i]).name@ == name)
    } else {
        None
    }
}

impl Interfaces {
    /// No interfaces.
    pub fn new() -> (r: Interfaces)
        ensures
            r.list@ == Seq::<Interface>::empty(),
    {
        Interfaces { list: Vec::new() }
    }

    /// Adds an interface, unless there is one of the same name.
    pub fn add(&mut self, iface: Interface) -> (r: bool)
        requires
            interfaces_wf(old(self).list@),
            iface.system.wf(),
        ensures
            interfaces_wf(final(self).list@),
            r == (lookup(old(self).list@, iface.name@) is None),
            final(self).list@ == (if r {
                old(self).list@.push(iface)
            } else {
                old(self).list@
            }),
    {
        if self.get_by_name(&iface.name).is_some() {
            return false;
        }
        self.list.push(iface);
        true
    }

    /// Looks an interface up by its name.
    pub fn get_by_name(&self, name: &String) -> (r: Option<usize>)
        requires
            interfaces_wf(self.list@),
        ensures
            match r {
                Some(i) => i < self.list@.len() && lookup(self.list@, name@) == Some(i as int)
                    && self.list@[i as int].name@ == name@,
                None => lookup(self.list@, name@) is None,
            },
    {
        let mut i: usize = 0;
        while i < self.list.len()
            invariant
                interfaces_wf(self.list@),
                i <= self.list@.len(),
                forall|j: int| 0 <= j < i ==> (#[trigger] self.list@[j]).name@ != name@,
            decreases self.list@.len() - i,
        {
            if self.list[i].name == *name {
                return Some(i);
            }
            i = i + 1;
        }
        None
    }

    /// Changes the interface index of an interface.
    pub fn update_ifindex(&mut self, iface_idx: usize, ifindex: Option<u32>)
        requires
            iface_idx < old(self).list@.len(),
        ensures
            final(self).list@ == old(self).list@.update(
                iface_idx as int,
                Interface {
                    system: InterfaceSys { ifindex, ..old(self).list@[iface_idx as int].system },
                    ..old(self).list@[iface_idx as int]
                },
            ),
    {
        self.list[iface_idx].system.ifindex = ifindex;
    }
}

/// An interface is found by its name, and only by it: where the search ends,
/// the name is the one that was looked for, and it fails only if no interface
/// has that name.
pub proof fn lemma_found_by_name(l: Interfaces, name: String, r: Option<usize>)
    requires
        call_ensures(Interfaces::get_by_name, (&l, &name), r),
    ensures
        match r {
            Some(i) => i < l.list@.len() && l.list@[i as int].name@ == name@,
            None => forall|i: int| 0 <= i < l.list@.len() ==> (#[trigger] l.list@[i]).name@ != name@,
        },
{
}

/// An interface with a name of its own is added behind all the others, which
/// stay as they are, and is found there. One with a name that is taken is not
/// added.
pub proof fn lemma_add(a: Interfaces, iface: Interface, b: Interfaces, r: bool)
    requires
        exists|x: &mut Interfaces| #[trigger]
            call_ensures(Interfaces::add, (x, iface), r) && *x == a && *final(x) == b,
    ensures
        r <==> forall|i: int|
            0 <= i < a.list@.len() ==> (#[trigger] a.list@[i]).name@ != iface.name@,
        r ==> b.list@.len() == a.list@.len() + 1 && b.list@.last() == iface,
        !r ==> b.list@.len() == a.list@.len(),
        forall|i: int| 0 <= i < a.list@.len() ==> #[trigger] b.list@[i] == a.list@[i],
{
}

/// Another index of an interface changes nothing else of it, and no other
/// interface.
pub proof fn lemma_update_ifindex(
    a: Interfaces,
    iface_idx: usize,
    ifindex: Option<u32>,
    b: Interfaces,
)
    requires
        exists|x: &mut Interfaces| #[trigger]
            call_ensures(Interfaces::update_ifindex, (x, iface_idx, ifindex), ()) && *x == a
                && *final(x) == b,
        iface_idx < a.list@.len(),
    ensures
        b.list@.len() == a.list@.len(),
        b.list@[iface_idx as int].system.ifindex == ifindex,
        ({
            let before = a.list@[iface_idx as int];
            let after = b.list@[iface_idx as int];
            &&& after.name == before.name
            &&& after.config == before.config
            &&& after.state == before.state
            &&& after.system.flags == before.system.flags
            &&& after.system.mtu == before.system.mtu
            &&& after.system.mac_addr == before.system.mac_addr
            &&& after.system.ipv4_addr_list == before.system.ipv4_addr_list
            &&& after.system.ipv6_addr_list == before.system.ipv6_addr_list
        }),
        forall|i: int|
            0 <= i < a.list@.len() && i != iface_idx ==> #[trigger] b.list@[i] == a.list@[i],
{
}

/// An interface is passive if it is configured so, and a loopback always is.
/// What else is known of it, and whether it is active, does not matter.
pub proof fn lemma_passive(iface: Interface, r: bool)
    requires
        call_ensures(Interface::is_passive, (&iface,), r),
    ensures
        iface.config.passive ==> r,
        iface.system.flags.loopback ==> r,
        r ==> iface.config.passive || iface.system.flags.loopback,
{
}

/// A new interface has a name and a configuration, and nothing else: no
/// addresses, no index, and it is neither up nor active.
pub proof fn lemma_new_interface(name: String, config: InterfaceCfg, r: Interface)
    requires
        call_ensures(Interface::new, (name, config), r),
    ensures
        r.name == name,
        r.config == config,
        !r.state.active,
        !r.system.flags.operative && !r.system.flags.loopback && !r.system.flags.broadcast,
        r.system.ifindex is None && r.system.mtu is None && r.system.mac_addr is None,
        r.system.ipv4_addr_list.list@.len() == 0 && r.system.ipv6_addr_list.list@.len() == 0,
{
}

/// At first there are no interfaces, and nothing is known of one.
pub proof fn lemma_no_interfaces(r: Interfaces, system: InterfaceSys)
    requires
        call_ensures(Interfaces::new, (), r),
        call_ensures(<InterfaceSys as Default>::default, (), system),
    ensures
        r.list@.len() == 0,
        !system.flags.operative && !system.flags.loopback && !system.flags.broadcast,
        system.ifindex is None && system.mtu is None && system.mac_addr is None,
        system.ipv4_addr_list.list@.len() == 0 && system.ipv6_addr_list.list@.len() == 0,
{
}

} // verus!
