//! Mapping a stream's absolute sample index onto the clock.
//!
//! Each capture buffer contributes a candidate offset: the time of its first
//! sample less the time that the samples before it take. Scheduling delay only
//! ever makes candidates later, so a rolling minimum finds the true offset; the
//! window lets it follow drift of the sample clock in both directions.

use vstd::prelude::*;
use crate::audio::SyncEvent;
use crate::scalar::Scalar64;

verus! {

/// Number of candidates that the rolling minimum covers.
pub const TIMEMAP_WINDOW: usize = 96;

/// What a [`TimeMap`] holds.
#[verifier::ext_equal]
pub struct Mapping {
    pub sample_rate: Scalar64,
    pub candidates: Seq<Scalar64>,
    pub offset_ns: Scalar64,
    pub ready: bool,
}

/// The smallest of the candidates.
pub open spec fn smallest(candidates: Seq<Scalar64>) -> Scalar64
    decreases candidates.len(),
{
    if candidates.len() <= 1 {
        candidates[0]
    } else {
        let best = smallest(candidates.drop_last());
        if candidates.last().rank < best.rank {
            candidates.last()
        } else {
            best
        }
    }
}

/// The latest candidates, as many as the window holds.
pub open spec fn windowed(candidates: Seq<Scalar64>) -> Seq<Scalar64> {
    if candidates.len() > TIMEMAP_WINDOW {
        candidates.skip(candidates.len() - TIMEMAP_WINDOW)
    } else {
        candidates
    }
}

/// The candidates after a buffer: those before a change of rate no longer
/// count.
pub open spec fn candidates_after(m: Mapping, rate_moved: bool, candidate: Scalar64) -> Seq<
    Scalar64,
> {
    windowed(
        if !m.ready || rate_moved {
            seq![candidate]
        } else {
            m.candidates.push(candidate)
        },
    )
}

impl Mapping {
    /// Nothing is known of the stream.
    pub open spec fn empty() -> Mapping {
        Mapping {
            sample_rate: Scalar64 { rank: 0 },
            candidates: Seq::empty(),
            offset_ns: Scalar64 { rank: 0 },
            ready: false,
        }
    }

    /// Once ready, the rate is positive and the offset is the smallest of the
    /// latest candidates.
    pub open spec fn wf(self) -> bool {
        &&& self.candidates.len() <= TIMEMAP_WINDOW
        &&& self.ready ==> {
            &&& self.sample_rate.rank > 0
            &&& self.candidates.len() > 0
            &&& self.offset_ns == smallest(self.candidates)
        }
    }

    /// The mapping after a buffer. One without a usable rate is ignored.
    pub open spec fn synced(self, ev: SyncEvent, rate_moved: bool, candidate: Scalar64) -> Mapping {
        if ev.sample_rate.rank <= 0 {
            self
        } else {
            let candidates = candidates_after(self, rate_moved, candidate);
            Mapping {
                sample_rate: if !self.ready || rate_moved {
                    ev.sample_rate
                } else {
                    self.sample_rate
                },
                candidates,
                offset_ns: smallest(candidates),
                ready: true,
            }
        }
    }
}

/// Maps sample indices of one stream onto the clock.
pub struct TimeMap {
    sample_rate: Scalar64,
    candidates: Vec<Scalar64>,
    offset_ns: Scalar64,
    ready: bool,
}

impl View for TimeMap {
    type V = Mapping;

    closed spec fn view(&self) -> Mapping {
        Mapping {
            sample_rate: self.sample_rate,
            candidates: self.candidates@,
            offset_ns: self.offset_ns,
            ready: self.ready,
        }
    }
}

impl TimeMap {
    pub fn new() -> (m: TimeMap)
        ensures
            m@ == Mapping::empty(),
            m@.wf(),
    {
        TimeMap {
            sample_rate: Scalar64 { rank: 0 },
            candidates: Vec::new(),
            offset_ns: Scalar64 { rank: 0 },
            ready: false,
        }
    }

    pub fn reset(&mut self)
        ensures
            final(self)@ == Mapping::empty(),
            final(self)@.wf(),
    {
        *self = TimeMap::new();
    }

    /// Takes in one buffer. `rate_moved` tells whether the buffer's rate differs
    /// from the one in force by more than half a sample per second; `candidate`
    /// is the offset that the buffer suggests at its rate. A buffer without a
    /// usable rate is ignored.
    pub fn on_sync(&mut self, ev: &SyncEvent, rate_moved: bool, candidate: Scalar64)
        requires
            old(self)@.wf(),
        ensures
            final(self)@.wf(),
            final(self)@ == old(self)@.synced(*ev, rate_moved, candidate),
    {
        if ev.sample_rate.rank <= 0 {
            return;
        }
        if !self.ready || rate_moved {
            self.sample_rate = ev.sample_rate;
            self.candidates.clear();
        }
        self.candidates.push(candidate);
        if self.candidates.len() > TIMEMAP_WINDOW {
            let ghost all = self.candidates@;
            self.candidates.remove(0);
            assert(self.candidates@ =~= all.skip(1));
        }
        assert(self.candidates@ =~= candidates_after(old(self)@, rate_moved, candidate));
        let mut least = self.candidates[0];
        let mut i: usize = 1;
        assert(self.candidates@.take(1)[0] == least);
        while i < self.candidates.len()
            invariant
                1 <= i <= self.candidates@.len(),
                least == smallest(self.candidates@.take(i as int)),
            decreases self.candidates@.len() - i,
        {
            let c = self.candidates[i];
            assert(self.candidates@.take(i + 1).drop_last() =~= self.candidates@.take(i as int));
            if c.rank < least.rank {
                least = c;
            }
            i = i + 1;
        }
        assert(self.candidates@.take(self.candidates@.len() as int) =~= self.candidates@);
        self.offset_ns = least;
        self.ready = true;
    }

    /// Whether sample indices can be mapped.
    pub fn ready(&self) -> (b: bool)
        requires
            self@.wf(),
        ensures
            b == self@.ready,
    {
        self.ready && self.sample_rate.rank > 0
    }

    pub fn sample_rate(&self) -> (rate: Scalar64)
        ensures
            rate == self@.sample_rate,
    {
        self.sample_rate
    }

    /// Time of sample zero in nanoseconds, possibly before the clock began.
    pub fn offset_ns(&self) -> (offset: Scalar64)
        ensures
            offset == self@.offset_ns,
    {
        self.offset_ns
    }
}

/// The smallest candidate is one of them, and none is smaller.
pub proof fn lemma_smallest(candidates: Seq<Scalar64>)
    requires
        candidates.len() > 0,
    ensures
        candidates.contains(smallest(candidates)),
        forall|i: int|
            0 <= i < candidates.len() ==> smallest(candidates).rank <= (
            #[trigger] candidates[i]).rank,
    decreases candidates.len(),
{
    if candidates.len() > 1 {
        let rest = candidates.drop_last();
        lemma_smallest(rest);
        assert(candidates.last() == candidates[candidates.len() - 1]);
        if smallest(candidates) == smallest(rest) {
            let k = choose|k: int| 0 <= k < rest.len() && rest[k] == smallest(rest);
            assert(candidates[k] == smallest(candidates));
        }
        assert forall|i: int| 0 <= i < candidates.len() implies smallest(candidates).rank <= (
        #[trigger] candidates[i]).rank by {
            if i < rest.len() {
                assert(rest[i] == candidates[i]);
            }
        }
    } else {
        assert(candidates[0] == smallest(candidates));
    }
}

/// Scheduling delay does no harm: while the window is not full, a candidate that
/// is not earlier than the offset leaves the offset where it is.
pub proof fn law_late_candidate_is_ignored(m: Mapping, ev: SyncEvent, candidate: Scalar64)
    requires
        m.wf(),
        m.ready,
        m.candidates.len() < TIMEMAP_WINDOW,
        candidate.rank >= m.offset_ns.rank,
    ensures
        m.synced(ev, false, candidate).offset_ns == m.offset_ns,
{
    assert(m.candidates.push(candidate).drop_last() =~= m.candidates);
}

/// An earlier candidate becomes the offset at once.
pub proof fn law_early_candidate_wins(
    m: Mapping,
    ev: SyncEvent,
    rate_moved: bool,
    candidate: Scalar64,
)
    requires
        m.wf(),
        ev.sample_rate.rank > 0,
        m.ready && !rate_moved ==> candidate.rank < m.offset_ns.rank,
    ensures
        m.synced(ev, rate_moved, candidate).offset_ns == candidate,
{
    let after = candidates_after(m, rate_moved, candidate);
    if m.ready && !rate_moved {
        lemma_smallest(m.candidates);
        lemma_smallest(after);
        assert(after.last() == candidate);
        let j = choose|j: int| 0 <= j < after.len() && after[j] == smallest(after);
        assert(smallest(after).rank <= after[after.len() - 1].rank);
        if j < after.len() - 1 {
            let all = m.candidates.push(candidate);
            let skipped = if all.len() > TIMEMAP_WINDOW {
                all.len() - TIMEMAP_WINDOW
            } else {
                0
            };
            assert(after[j] == m.candidates[j + skipped]);
        }
    }
}

/// The offset is the least of the latest candidates, at most ninety-six of them:
/// the new one and those before it, oldest forgotten first. The first buffer of
/// a stream, and the first at another rate, stand alone.
pub proof fn law_offset_is_the_least_of_the_latest(
    m: Mapping,
    ev: SyncEvent,
    rate_moved: bool,
    candidate: Scalar64,
)
    requires
        m.candidates.len() <= 96,
        ev.sample_rate.rank > 0,
    ensures
        ({
            let after = m.synced(ev, rate_moved, candidate);
            &&& after.ready
            &&& after.candidates.contains(after.offset_ns)
            &&& forall|i: int|
                0 <= i < after.candidates.len() ==> after.offset_ns.rank <= (
                #[trigger] after.candidates[i]).rank
            &&& !m.ready || rate_moved ==> after.candidates == seq![candidate] && after.sample_rate
                == ev.sample_rate
            &&& m.ready && !rate_moved ==> after.sample_rate == m.sample_rate
            &&& m.ready && !rate_moved && m.candidates.len() < 96 ==> after.candidates
                == m.candidates.push(candidate)
            &&& m.ready && !rate_moved && m.candidates.len() == 96 ==> after.candidates
                == m.candidates.subrange(1, 96).push(candidate)
        }),
{
    let after = m.synced(ev, rate_moved, candidate);
    lemma_smallest(after.candidates);
    if m.ready && !rate_moved && m.candidates.len() == 96 {
        assert(m.candidates.push(candidate).skip(1) =~= m.candidates.subrange(1, 96).push(
            candidate,
        ));
    }
}

/// A buffer without a usable rate changes nothing.
pub proof fn law_unusable_rate_is_ignored(
    m: Mapping,
    ev: SyncEvent,
    rate_moved: bool,
    candidate: Scalar64,
)
    requires
        ev.sample_rate.rank <= 0,
    ensures
        m.synced(ev, rate_moved, candidate) == m,
{
}

/// A map starts out not ready, with no candidate.
pub proof fn law_new_map_knows_nothing()
    ensures
        !Mapping::empty().ready,
        Mapping::empty().candidates.len() == 0,
{
}

} // verus!
