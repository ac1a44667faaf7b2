//! Spans of time reported in milliseconds, held exactly as nanosecond counts.

use vstd::prelude::*;

verus! {

/// Nanoseconds in one millisecond.
pub const NS_PER_MS: u64 = 1_000_000;

/// A span of time, exact to the nanosecond.
#[derive(Clone, Copy, Debug, PartialEq, Eq, Structural)]
pub struct Millis {
    pub ns: u64,
}

/// A difference between two points in time: positive when the first is later.
#[derive(Clone, Copy, Debug, PartialEq, Eq, Structural)]
pub struct SignedMillis {
    pub ns: i64,
}

/// The span from `from` up to `to`; zero when `to` is not later.
pub open spec fn span_ns(from: u64, to: u64) -> u64 {
    if to >= from {
        (to - from) as u64
    } else {
        0
    }
}

impl Millis {
    /// Both spans together, at most the longest span there is.
    pub open spec fn sum(self, other: Millis) -> Millis {
        Millis {
            ns: if self.ns + other.ns > u64::MAX {
                u64::MAX
            } else {
                (self.ns + other.ns) as u64
            },
        }
    }

    /// Both spans together, at most the longest span there is.
    pub fn plus(self, other: Millis) -> (sum: Millis)
        ensures
            sum == self.sum(other),
    {
        Millis { ns: self.ns.saturating_add(other.ns) }
    }

    /// The span from `from` up to `to`; zero when `to` is not later.
    pub fn between(from: u64, to: u64) -> (span: Millis)
        ensures
            span.ns == span_ns(from, to),
    {
        Millis { ns: to.saturating_sub(from) }
    }

    /// Whether the span lasts at least `ms` whole milliseconds.
    pub fn at_least(self, ms: u64) -> (b: bool)
        ensures
            b == (self.ns >= ms * NS_PER_MS),
    {
        self.ns as u128 >= ms as u128 * 1_000_000u128
    }
}

/// A span runs from the earlier time to the later one; there is none the other
/// way.
pub proof fn law_span_is_the_difference(from: u64, to: u64)
    ensures
        from <= to ==> from + span_ns(from, to) == to,
        from >= to ==> span_ns(from, to) == 0,
{
}

/// Spans add up, as far as the machine can hold them.
pub proof fn law_spans_add_up(a: Millis, b: Millis)
    ensures
        a.ns + b.ns <= u64::MAX ==> a.sum(b).ns == a.ns + b.ns,
        a.ns + b.ns > u64::MAX ==> a.sum(b).ns == u64::MAX,
{
}

} // verus!
