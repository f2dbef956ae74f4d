//! The clocks.

use std::time::{Duration, Instant};

use vstd::prelude::*;

verus! {

#[verifier::external_type_specification]
#[verifier::external_body]
pub struct ExInstant(Instant);

/// `Instant::now` reads the clock. Nothing is claimed of what it shows.
pub assume_specification[ Instant::now ]() -> (r: Instant);

/// `Instant::elapsed` tells the time since then. Nothing is claimed of how
/// much that is.
pub assume_specification[ Instant::elapsed ](t: &Instant) -> (r: Duration);

/// `Duration::as_secs` tells the whole seconds of a duration. As nothing is
/// known of a duration, nothing is claimed of them.
pub assume_specification[ Duration::as_secs ](d: &Duration) -> (n: u64);

/// Whether the point in time is one that the clock has shown: what
/// `Instant::now` returned.
pub open spec fn clock_reading(t: Instant) -> bool {
    call_ensures(Instant::now, (), t)
}

/// Whether `n` is the number of whole seconds of a time that the clock has
/// shown to have passed since then: what `Duration::as_secs` makes of what
/// `Instant::elapsed` returned for `t`.
pub open spec fn seconds_since(t: Instant, n: u64) -> bool {
    exists|d: Duration| #[trigger]
        call_ensures(Instant::elapsed, (&t,), d) && call_ensures(Duration::as_secs, (&d,), n)
}

/// How many whole seconds have passed since then.
pub(crate) fn elapsed_secs(t: &Instant) -> (n: u64)
    ensures
        seconds_since(*t, n),
{
    let elapsed = t.elapsed();
    let n: u64 = elapsed.as_secs();
    assert(call_ensures(Instant::elapsed, (t,), elapsed));
    n
}

/// A point in time: seconds since the Unix epoch, and the nanoseconds on top
/// of them.
#[derive(Clone, Copy, Debug, PartialEq, Eq, Structural)]
pub struct Timestamp {
    pub secs: i64,
    pub nanos: u32,
}

impl Default for Timestamp {
    /// The Unix epoch.
    fn default() -> (r: Timestamp)
        ensures
            r == (Timestamp { secs: 0, nanos: 0 }),
    {
        Timestamp { secs: 0, nanos: 0 }
    }
}

/// `chrono::Utc::now` reads the wall clock. Nothing is claimed of what it
/// shows. It takes for granted that the Unix epoch lies in the past.
#[verifier::external_body]
fn utc_now() -> (r: Timestamp) {
    let now = chrono::Utc::now();
    Timestamp { secs: now.timestamp(), nanos: now.timestamp_subsec_nanos() }
}

/// Whether the point in time is one that the wall clock has shown: what
/// `chrono::Utc::now` returned.
pub closed spec fn wall_clock_reading(t: Timestamp) -> bool {
    call_ensures(utc_now, (), t)
}

/// The current time.
pub(crate) fn wall_clock_now() -> (r: Timestamp)
    ensures
        wall_clock_reading(r),
{
    utc_now()
}

/// Time starts at the Unix epoch.
pub proof fn lemma_epoch(r: Timestamp)
    requires
        call_ensures(<Timestamp as Default>::default, (), r),
    ensures
        r.secs == 0 && r.nanos == 0,
{
}

} // verus!
