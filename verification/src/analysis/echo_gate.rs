//! The echo gate: mic activity is ignored while bot audio plays, and for a
//! while after.
//!
//! It works on intervals of bot audio rather than on a switch, so that it
//! is right for a mic window at any time, however samples are batched.

use vstd::prelude::*;
use crate::analysis::segmenter::SegEvent;
use crate::millis::NS_PER_MS;

verus! {

/// Even a bot blip too short to count is sound that can echo: it gates the mic
/// for this long.
pub const BLIP_NS: u64 = 100_000_000;

/// What an [`EchoGate`] holds.
#[verifier::ext_equal]
pub struct Gate {
    /// Finished stretches of bot audio.
    pub intervals: Seq<(u64, u64)>,
    /// Start of the stretch in progress.
    pub open_since: Option<u64>,
}

/// Bot audio from `interval` can be heard at `t_ns`, or its echo can.
pub open spec fn echoes(interval: (u64, u64), t_ns: u64, tail_ms: u64) -> bool {
    interval.0 <= t_ns <= interval.1 + tail_ms * NS_PER_MS
}

impl Gate {
    /// No bot audio so far.
    pub open spec fn open_gate() -> Gate {
        Gate { intervals: Seq::empty(), open_since: None }
    }

    /// Whether mic activity at `t_ns` is to be ignored.
    pub open spec fn shut(self, t_ns: u64, tail_ms: u64) -> bool {
        ||| self.open_since matches Some(s) && t_ns >= s
        ||| exists|i: int|
            0 <= i < self.intervals.len() && echoes(#[trigger] self.intervals[i], t_ns, tail_ms)
    }

    /// The echo gate after an edge of bot audio.
    pub open spec fn after(self, event: SegEvent) -> Gate {
        match event {
            SegEvent::Open { t_ns } => Gate { open_since: Some(t_ns), ..self },
            SegEvent::Close { t_ns } => Gate {
                intervals: self.intervals.push(
                    (
                        match self.open_since {
                            Some(s) => s,
                            None => t_ns,
                        },
                        t_ns,
                    ),
                ),
                open_since: None,
            },
            SegEvent::Cancel => self.cut(
                match self.open_since {
                    Some(s) if s + BLIP_NS <= u64::MAX => (s + BLIP_NS) as u64,
                    _ => u64::MAX,
                },
            ),
        }
    }

    /// The echo gate after a run of edges.
    pub open spec fn after_all(self, events: Seq<SegEvent>) -> Gate
        decreases events.len(),
    {
        if events.len() == 0 {
            self
        } else {
            self.after_all(events.drop_last()).after(events.last())
        }
    }

    /// The stretch in progress, if any, is taken to end at `end_ns`.
    pub open spec fn cut(self, end_ns: u64) -> Gate {
        match self.open_since {
            Some(s) => Gate { intervals: self.intervals.push((s, end_ns)), open_since: None },
            None => self,
        }
    }
}

/// The bot audio heard in a session, as far as it gates the mic.
pub struct EchoGate {
    intervals: Vec<(u64, u64)>,
    open_since: Option<u64>,
}

impl View for EchoGate {
    type V = Gate;

    closed spec fn view(&self) -> Gate {
        Gate { intervals: self.intervals@, open_since: self.open_since }
    }
}

impl Default for EchoGate {
    fn default() -> (gate: EchoGate)
        ensures
            gate@ == Gate::open_gate(),
    {
        EchoGate { intervals: Vec::new(), open_since: None }
    }
}

impl EchoGate {
    /// Forgets all bot audio.
    pub fn clear(&mut self)
        ensures
            final(self)@ == Gate::open_gate(),
    {
        self.intervals.clear();
        self.open_since = None;
    }

    /// Whether mic activity at `t_ns` is to be ignored.
    pub fn gated(&self, t_ns: u64, tail_ms: u64) -> (b: bool)
        ensures
            b == self@.shut(t_ns, tail_ms),
    {
        if let Some(s) = self.open_since {
            if t_ns >= s {
                return true;
            }
        }
        let tail_ns: u128 = tail_ms as u128 * 1_000_000;
        let mut i: usize = 0;
        while i < self.intervals.len()
            invariant
                i <= self.intervals@.len(),
                tail_ns == tail_ms * NS_PER_MS,
                forall|k: int|
                    0 <= k < i ==> !echoes(#[trigger] self@.intervals[k], t_ns, tail_ms),
            decreases self.intervals@.len() - i,
        {
            let (start, end) = self.intervals[i];
            assert(self@.intervals[i as int] == (start, end));
            if t_ns >= start && t_ns as u128 <= end as u128 + tail_ns {
                assert(echoes(self@.intervals[i as int], t_ns, tail_ms));
                return true;
            }
            i = i + 1;
        }
        false
    }

    /// Takes in an edge of bot audio.
    pub fn on_event(&mut self, event: SegEvent)
        ensures
            final(self)@ == old(self)@.after(event),
    {
        match event {
            SegEvent::Open { t_ns } => {
                self.open_since = Some(t_ns);
            },
            SegEvent::Close { t_ns } => {
                let start: u64 = self.open_since.unwrap_or(t_ns);
                self.open_since = None;
                self.intervals.push((start, t_ns));
            },
            SegEvent::Cancel => {
                if let Some(s) = self.open_since {
                    self.open_since = None;
                    self.intervals.push((s, s.saturating_add(BLIP_NS)));
                }
            },
        }
    }

    /// Ends the stretch in progress at `now_ns`: the output device changed.
    pub fn on_device_change(&mut self, now_ns: u64)
        ensures
            final(self)@ == old(self)@.cut(now_ns),
    {
        if let Some(s) = self.open_since {
            self.open_since = None;
            self.intervals.push((s, now_ns));
        }
    }
}

/// Bot audio gates the mic from its first sound until the tail after its last,
/// whatever else is heard in between or later.
pub proof fn law_bot_audio_gates_the_mic(
    gate: Gate,
    open_ns: u64,
    close_ns: u64,
    later: Seq<SegEvent>,
    t_ns: u64,
    tail_ms: u64,
)
    requires
        open_ns <= t_ns <= close_ns + tail_ms * 1_000_000,
    ensures
        gate.after(SegEvent::Open { t_ns: open_ns }).after(
            SegEvent::Close { t_ns: close_ns },
        ).after_all(later).shut(t_ns, tail_ms),
{
    let closed = gate.after(SegEvent::Open { t_ns: open_ns }).after(
        SegEvent::Close { t_ns: close_ns },
    );
    let k = gate.intervals.len() as int;
    assert(closed.intervals[k] == (open_ns, close_ns));
    lemma_intervals_stay(closed, later, k);
    assert(echoes(closed.after_all(later).intervals[k], t_ns, tail_ms));
}

proof fn lemma_intervals_stay(gate: Gate, later: Seq<SegEvent>, k: int)
    requires
        0 <= k < gate.intervals.len(),
    ensures
        k < gate.after_all(later).intervals.len(),
        gate.after_all(later).intervals[k] == gate.intervals[k],
    decreases later.len(),
{
    if later.len() > 0 {
        lemma_intervals_stay(gate, later.drop_last(), k);
    }
}

/// While bot audio plays, everything from its start on is gated.
pub proof fn law_playing_audio_gates_the_mic(gate: Gate, open_ns: u64, t_ns: u64, tail_ms: u64)
    requires
        t_ns >= open_ns,
    ensures
        gate.after(SegEvent::Open { t_ns: open_ns }).shut(t_ns, tail_ms),
{
}

/// The echo gate lets the mic through where no bot audio and no tail of any reaches.
pub proof fn law_silence_leaves_the_mic_alone(gate: Gate, t_ns: u64, tail_ms: u64)
    requires
        gate.open_since matches Some(s) ==> t_ns < s,
        forall|i: int|
            0 <= i < gate.intervals.len() ==> t_ns < (#[trigger] gate.intervals[i]).0
                || gate.intervals[i].1 + tail_ms * 1_000_000 < t_ns,
    ensures
        !gate.shut(t_ns, tail_ms),
{
}

/// Mic activity is ignored exactly while bot audio plays, and within the tail
/// after each stretch of it, counted in milliseconds.
pub proof fn law_gated_times(gate: Gate, t_ns: u64, tail_ms: u64)
    ensures
        gate.shut(t_ns, tail_ms) <==> ((gate.open_since is Some && gate.open_since->0 <= t_ns) || (
        exists|i: int|
            0 <= i < gate.intervals.len() && (#[trigger] gate.intervals[i]).0 <= t_ns <= (
            gate.intervals[i].1 + tail_ms * 1_000_000))),
{
    if gate.shut(t_ns, tail_ms) && !(gate.open_since is Some && gate.open_since->0 <= t_ns) {
        let i = choose|i: int|
            0 <= i < gate.intervals.len() && echoes(#[trigger] gate.intervals[i], t_ns, tail_ms);
        assert(gate.intervals[i].0 <= t_ns <= gate.intervals[i].1 + tail_ms * 1_000_000);
    }
    if exists|i: int|
        0 <= i < gate.intervals.len() && (#[trigger] gate.intervals[i]).0 <= t_ns <= (
        gate.intervals[i].1 + tail_ms * 1_000_000) {
        let i = choose|i: int|
            0 <= i < gate.intervals.len() && (#[trigger] gate.intervals[i]).0 <= t_ns <= (
            gate.intervals[i].1 + tail_ms * 1_000_000);
        assert(echoes(gate.intervals[i], t_ns, tail_ms));
    }
}

/// A stretch of bot audio is remembered with its own start and end; one whose
/// start was not heard, as the moment of its end.
pub proof fn law_stretch_is_remembered(gate: Gate, open_ns: u64, close_ns: u64)
    ensures
        ({
            let after = gate.after(SegEvent::Open { t_ns: open_ns }).after(
                SegEvent::Close { t_ns: close_ns },
            );
            after.open_since is None && after.intervals == gate.intervals.push((open_ns, close_ns))
        }),
        gate.open_since is None ==> ({
            let after = gate.after(SegEvent::Close { t_ns: close_ns });
            after.open_since is None && after.intervals == gate.intervals.push(
                (close_ns, close_ns),
            )
        }),
{
}

/// A bot blip gates the mic for a tenth of a second from its start, and the tail
/// after that, whatever follows.
pub proof fn law_blip_gates_the_mic(
    gate: Gate,
    open_ns: u64,
    later: Seq<SegEvent>,
    t_ns: u64,
    tail_ms: u64,
)
    requires
        open_ns <= t_ns <= open_ns + 100_000_000 + tail_ms * 1_000_000,
    ensures
        gate.after(SegEvent::Open { t_ns: open_ns }).after(SegEvent::Cancel).after_all(later).shut(
            t_ns,
            tail_ms,
        ),
{
    let closed = gate.after(SegEvent::Open { t_ns: open_ns }).after(SegEvent::Cancel);
    let k = gate.intervals.len() as int;
    assert(closed.intervals[k].0 == open_ns);
    lemma_intervals_stay(closed, later, k);
    assert(echoes(closed.after_all(later).intervals[k], t_ns, tail_ms));
}

/// Once bot audio and its tail are over, the mic is heard again as far as the
/// earlier stretches let it: after a stretch, after a blip, and after the output
/// device changed.
pub proof fn law_mic_is_heard_again(
    gate: Gate,
    open_ns: u64,
    close_ns: u64,
    t_ns: u64,
    tail_ms: u64,
)
    requires
        gate.open_since is None,
        !gate.shut(t_ns, tail_ms),
    ensures
        t_ns > close_ns + tail_ms * 1_000_000 ==> !gate.after(
            SegEvent::Open { t_ns: open_ns },
        ).after(SegEvent::Close { t_ns: close_ns }).shut(t_ns, tail_ms),
        t_ns > close_ns + tail_ms * 1_000_000 ==> !gate.after(SegEvent::Open { t_ns: open_ns }).cut(
            close_ns,
        ).shut(t_ns, tail_ms),
        t_ns > open_ns + 100_000_000 + tail_ms * 1_000_000 ==> !gate.after(
            SegEvent::Open { t_ns: open_ns },
        ).after(SegEvent::Cancel).shut(t_ns, tail_ms),
        t_ns < open_ns ==> !gate.after(SegEvent::Open { t_ns: open_ns }).shut(t_ns, tail_ms),
{
    let opened = gate.after(SegEvent::Open { t_ns: open_ns });
    assert forall|i: int| 0 <= i < gate.intervals.len() implies !echoes(
        #[trigger] gate.intervals[i],
        t_ns,
        tail_ms,
    ) by {}
    assert(opened.cut(close_ns).intervals.drop_last() =~= gate.intervals);
    assert(opened.after(SegEvent::Close { t_ns: close_ns }).intervals.drop_last()
        =~= gate.intervals);
    assert(opened.after(SegEvent::Cancel).intervals.drop_last() =~= gate.intervals);
    if t_ns > close_ns + tail_ms * 1_000_000 {
        lemma_one_more_stretch(opened.cut(close_ns), gate, t_ns, tail_ms);
        lemma_one_more_stretch(
            opened.after(SegEvent::Close { t_ns: close_ns }),
            gate,
            t_ns,
            tail_ms,
        );
    }
    if t_ns > open_ns + 100_000_000 + tail_ms * 1_000_000 {
        lemma_one_more_stretch(opened.after(SegEvent::Cancel), gate, t_ns, tail_ms);
    }
}

proof fn lemma_one_more_stretch(after: Gate, gate: Gate, t_ns: u64, tail_ms: u64)
    requires
        after.open_since is None,
        after.intervals.len() == gate.intervals.len() + 1,
        after.intervals.drop_last() == gate.intervals,
        !echoes(after.intervals.last(), t_ns, tail_ms),
        !gate.shut(t_ns, tail_ms),
    ensures
        !after.shut(t_ns, tail_ms),
{
    assert forall|i: int| 0 <= i < after.intervals.len() implies !echoes(
        #[trigger] after.intervals[i],
        t_ns,
        tail_ms,
    ) by {
        if i < gate.intervals.len() {
            assert(after.intervals.drop_last()[i] == after.intervals[i]);
            assert(!echoes(gate.intervals[i], t_ns, tail_ms));
        }
    }
}

/// A change of the output device ends the stretch in progress there and then,
/// and is nothing to an echo gate with none in progress; neither is a blip that
/// was not heard to start.
pub proof fn law_device_change_ends_the_stretch(gate: Gate, now_ns: u64)
    ensures
        gate.open_since is Some ==> gate.cut(now_ns).open_since is None && gate.cut(
            now_ns,
        ).intervals == gate.intervals.push((gate.open_since->0, now_ns)),
        gate.open_since is None ==> gate.cut(now_ns) == gate && gate.after(SegEvent::Cancel)
            == gate,
{
}

/// Edges taken in one by one or in runs make no difference.
pub proof fn law_echo_edges_join(gate: Gate, first: Seq<SegEvent>, second: Seq<SegEvent>)
    ensures
        gate.after_all(first + second) == gate.after_all(first).after_all(second),
        forall|e: SegEvent| gate.after_all(seq![e]) == #[trigger] gate.after(e),
    decreases second.len(),
{
    if second.len() == 0 {
        assert(first + second =~= first);
    } else {
        law_echo_edges_join(gate, first, second.drop_last());
        assert((first + second).drop_last() =~= first + second.drop_last());
        assert((first + second).last() == second.last());
    }
    assert forall|e: SegEvent| gate.after_all(seq![e]) == #[trigger] gate.after(e) by {
        reveal_with_fuel(Gate::after_all, 2);
        assert(seq![e].drop_last() =~= Seq::<SegEvent>::empty());
        assert(seq![e].last() == e);
    }
}

} // verus!
