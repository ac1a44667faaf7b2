//! The one monotonic clock. All times are nanoseconds since launch, taken from
//! the same base as the audio hardware's timestamps, so that those convert onto
//! the timeline without loss.

use vstd::prelude::*;
use crate::millis::span_ns;

verus! {

/// Where the timeline starts.
#[derive(Clone, Copy, Debug, PartialEq, Eq, Structural)]
pub struct Clock {
    /// Raw monotonic time at launch.
    pub origin_ns: u64,
}

/// Length of a tick of the host clock: `numer / denom` nanoseconds.
#[derive(Clone, Copy, Debug, PartialEq, Eq, Structural)]
pub struct MachTimebaseInfo {
    pub numer: u32,
    pub denom: u32,
}

/// Host ticks in whole nanoseconds, modulo the range of the clock.
pub open spec fn ticks_in_ns(ticks: u64, timebase: MachTimebaseInfo) -> int {
    (ticks * timebase.numer / timebase.denom as int) % 0x1_0000_0000_0000_0000
}

/// Starts the timeline at the given raw time.
pub fn init(raw_ns: u64) -> (clock: Clock)
    ensures
        clock.origin_ns == raw_ns,
{
    Clock { origin_ns: raw_ns }
}

/// Nanoseconds since launch.
pub fn now_ns(clock: &Clock, raw_ns: u64) -> (t_ns: u64)
    ensures
        t_ns == span_ns(clock.origin_ns, raw_ns),
{
    raw_ns.saturating_sub(clock.origin_ns)
}

/// Host ticks in nanoseconds.
pub fn ticks_to_ns(ticks: u64, timebase: &MachTimebaseInfo) -> (ns: u64)
    requires
        timebase.denom > 0,
    ensures
        ns == ticks_in_ns(ticks, *timebase),
{
    proof {
        let (t, n, d) = (ticks as int, timebase.numer as int, timebase.denom as int);
        assert(0 <= t * n <= u128::MAX) by (nonlinear_arith)
            requires
                0 <= t <= u64::MAX,
                0 <= n <= u32::MAX,
        ;
    }
    let ns: u128 = ticks as u128 * timebase.numer as u128 / timebase.denom as u128;
    assert((ns as u64) as u128 == ns % 0x1_0000_0000_0000_0000u128) by (bit_vector);
    #[verifier::truncate]
    (ns as u64)
}

/// An audio timestamp in host ticks, as nanoseconds since launch: what
/// [`now_ns`] would have said at that moment.
pub fn host_time_to_ns(clock: &Clock, host_time: u64, timebase: &MachTimebaseInfo) -> (t_ns: u64)
    requires
        timebase.denom > 0,
    ensures
        t_ns == span_ns(clock.origin_ns, ticks_in_ns(host_time, *timebase) as u64),
{
    now_ns(clock, ticks_to_ns(host_time, timebase))
}

/// A monotonic reading in seconds and nanoseconds, as nanoseconds.
pub fn timespec_to_ns(sec: u64, nsec: u64) -> (ns: u64)
    requires
        sec * 1_000_000_000 + nsec <= u64::MAX,
    ensures
        ns == sec * 1_000_000_000 + nsec,
{
    sec * 1_000_000_000 + nsec
}

/// Where a tick is a nanosecond, host times are raw times.
pub proof fn law_unit_ticks_are_ns(ticks: u64, timebase: MachTimebaseInfo)
    requires
        timebase.denom > 0,
        timebase.numer == timebase.denom,
    ensures
        ticks_in_ns(ticks, timebase) == ticks,
{
    let (t, d) = (ticks as int, timebase.denom as int);
    assert(t * d / d == t) by (nonlinear_arith)
        requires
            d > 0,
    ;
}

/// The timeline never runs backwards: a later raw time is not earlier on it.
pub proof fn law_clock_is_monotonic(clock: Clock, earlier: u64, later: u64)
    requires
        earlier <= later,
    ensures
        span_ns(clock.origin_ns, earlier) <= span_ns(clock.origin_ns, later),
        clock.origin_ns <= earlier ==> span_ns(clock.origin_ns, later) - span_ns(
            clock.origin_ns,
            earlier,
        ) == later - earlier,
{
}

/// Ticks are converted to the nanosecond, rounded down.
pub proof fn law_ticks_round_down(ticks: u64, timebase: MachTimebaseInfo)
    requires
        timebase.denom > 0,
        ticks * timebase.numer < timebase.denom * 0x1_0000_0000_0000_0000,
    ensures
        ticks_in_ns(ticks, timebase) * timebase.denom <= ticks * timebase.numer,
        ticks * timebase.numer < (ticks_in_ns(ticks, timebase) + 1) * timebase.denom,
{
    let (x, d) = (ticks * timebase.numer, timebase.denom as int);
    assert(x >= 0) by (nonlinear_arith)
        requires
            x == ticks * timebase.numer,
    ;
    vstd::arithmetic::div_mod::lemma_fundamental_div_mod(x, d);
    let q = x / d;
    assert(0 <= q < 0x1_0000_0000_0000_0000 && q * d <= x < (q + 1) * d) by (nonlinear_arith)
        requires
            x == d * q + x % d,
            0 <= x % d < d,
            0 <= x < d * 0x1_0000_0000_0000_0000,
    ;
    vstd::arithmetic::div_mod::lemma_small_mod(q as nat, 0x1_0000_0000_0000_0000);
    assert(ticks_in_ns(ticks, timebase) == q);
}

} // verus!
