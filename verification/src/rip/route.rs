//! RIP routes.

use vstd::prelude::*;

use crate::rip::version::Version;

verus! {

/// Where a route comes from.
#[derive(Clone, Copy, Debug, PartialEq, Eq, Structural)]
pub enum RouteType {
    Connected,
    Rip,
}

/// The metric of a route.
#[derive(Clone, Copy, Debug, PartialEq, Eq, Structural)]
pub struct Metric {
    pub value: u8,
}

impl Metric {
    /// The metric as a number.
    pub fn get(&self) -> (r: u8)
        ensures
            r == self.value,
    {
        self.value
    }
}

/// A route.
#[derive(Clone, Debug)]
pub struct Route<V: Version> {
    pub prefix: V::Network,
    pub ifindex: u32,
    pub nexthop: Option<V::Addr>,
    pub metric: Metric,
    pub tag: u16,
    pub route_type: RouteType,
}

/// The metric is the number that it was made from.
pub proof fn lemma_metric(metric: Metric, r: u8)
    requires
        call_ensures(Metric::get, (&metric,), r),
    ensures
        metric == (Metric { value: r }),
{
}

} // verus!
