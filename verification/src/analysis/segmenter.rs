//! Energy-based activity segmentation.
//!
//! A lane is judged in windows of about 10 ms. A window is active when its RMS
//! level reaches the threshold and the echo gate is open. A block of activity
//! opens at the first sample of its first active window that crosses the
//! threshold, and closes once silence has lasted for the hangover. Its end is
//! backdated to the last crossing, so the hangover never inflates a latency.

use vstd::prelude::*;
use crate::config::SegmenterConfig;
use crate::millis::{span_ns, Millis, NS_PER_MS};
use crate::scalar::Scalar32;

verus! {

/// Rank of -65 dBFS, the lowest automatic threshold.
pub const AUTO_FLOOR_DB: i32 = -0x4282_0000;

/// An edge of activity on one lane.
#[derive(Clone, Copy, Debug, PartialEq, Eq, Structural)]
pub enum SegEvent {
    /// Activity started (provisional until Close; may be cancelled).
    Open { t_ns: u64 },
    /// Activity ended; `t_ns` is the last threshold crossing, not open+hangover.
    Close { t_ns: u64 },
    /// The open block was shorter than the minimum: discard it.
    Cancel,
}

/// What was measured of one full window.
#[derive(Clone, Copy, Debug, PartialEq, Eq, Structural)]
pub struct WindowLevel {
    /// RMS level in dBFS.
    pub rms_db: Scalar32,
    /// Noise floor plus margin in dBFS, this window taken into account.
    pub auto_threshold_db: Scalar32,
}

/// A block in progress.
#[derive(Clone, Copy, Debug, PartialEq, Eq, Structural)]
pub struct ActiveBlock {
    pub open_ns: u64,
    pub last_above_ns: u64,
}

/// The segmentation state machine of one lane.
#[derive(Clone, Copy, Debug, PartialEq, Eq, Structural)]
pub struct Segmenter {
    /// The block in progress, if the lane is active.
    pub active: Option<ActiveBlock>,
    /// Samples per window; zero until the sample rate is known.
    pub window_samples: usize,
    /// Samples seen of the current window.
    pub n_in_window: usize,
    /// Absolute index of the current window's first sample.
    pub window_start_sample: u64,
    /// First and last samples of the current window at or over the threshold.
    pub first_above_in_window: Option<u64>,
    pub last_above_in_window: Option<u64>,
    /// The threshold that the last window was held against.
    pub effective_threshold_db: Scalar32,
}

/// The segmenter together with the edges it has reported and the number of
/// window levels it has used up.
#[verifier::ext_equal]
pub struct Segmentation {
    pub seg: Segmenter,
    pub events: Seq<SegEvent>,
    pub used: nat,
}

/// `f` computes `value` wherever it returns.
pub open spec fn computes<T, F: Fn(u64) -> T>(f: F, value: spec_fn(u64) -> T) -> bool {
    forall|x: u64, y: T| #[trigger] f.ensures((x,), y) ==> y == value(x)
}

/// Magnitude of an amplitude.
pub open spec fn amplitude(s: Scalar32) -> int {
    if s.rank < 0 {
        -(s.rank as int)
    } else {
        s.rank as int
    }
}

/// The threshold in force after a window.
pub open spec fn threshold_after(level: WindowLevel, cfg: SegmenterConfig) -> Scalar32 {
    if !cfg.auto_threshold {
        cfg.threshold_db
    } else if level.auto_threshold_db.rank >= AUTO_FLOOR_DB {
        level.auto_threshold_db
    } else {
        Scalar32 { rank: AUTO_FLOOR_DB }
    }
}

/// How a block ends: closed at its last crossing if it lasted the minimum,
/// discarded otherwise.
pub open spec fn block_end(b: ActiveBlock, cfg: SegmenterConfig) -> SegEvent {
    if span_ns(b.open_ns, b.last_above_ns) >= cfg.min_block_ms * NS_PER_MS {
        SegEvent::Close { t_ns: b.last_above_ns }
    } else {
        SegEvent::Cancel
    }
}

/// The current window is over; the next one starts at sample `next_sample`.
pub open spec fn window_done(seg: Segmenter, next_sample: u64) -> Segmenter {
    Segmenter {
        n_in_window: 0,
        window_start_sample: next_sample,
        first_above_in_window: None,
        last_above_in_window: None,
        ..seg
    }
}

/// What a full window does to the lane's block and which edges it reports.
pub open spec fn judged(
    seg: Segmenter,
    next_sample: u64,
    level: WindowLevel,
    cfg: SegmenterConfig,
    time: spec_fn(u64) -> u64,
    gated: spec_fn(u64) -> bool,
) -> (Option<ActiveBlock>, Seq<SegEvent>) {
    let end_ns = time(next_sample);
    let over = level.rms_db.rank >= threshold_after(level, cfg).rank && !gated(end_ns);
    match seg.active {
        None => if over {
            let open_sample = match seg.first_above_in_window {
                Some(n) => n,
                None => seg.window_start_sample,
            };
            let last_sample = match seg.last_above_in_window {
                Some(n) => n,
                None => open_sample,
            };
            (
                Some(ActiveBlock { open_ns: time(open_sample), last_above_ns: time(last_sample) }),
                seq![SegEvent::Open { t_ns: time(open_sample) }],
            )
        } else {
            (None, seq![])
        },
        Some(b) => {
            // A loud tail inside a quiet window still counts toward the edge,
            // unless it is gated.
            let last_ns = match seg.last_above_in_window {
                Some(n) if over || (!gated(end_ns) && time(n) > b.last_above_ns) => time(n),
                _ => b.last_above_ns,
            };
            let kept = ActiveBlock { last_above_ns: last_ns, ..b };
            if !over && span_ns(last_ns, end_ns) >= cfg.hangover_ms * NS_PER_MS {
                (None, seq![block_end(kept, cfg)])
            } else {
                (Some(kept), seq![])
            }
        },
    }
}

/// A full window of the given level is judged and the next one begun.
pub open spec fn window_closed(
    s: Segmentation,
    next_sample: u64,
    level: WindowLevel,
    cfg: SegmenterConfig,
    time: spec_fn(u64) -> u64,
    gated: spec_fn(u64) -> bool,
) -> Segmentation {
    let (active, events) = judged(s.seg, next_sample, level, cfg, time, gated);
    Segmentation {
        seg: Segmenter {
            active,
            effective_threshold_db: threshold_after(level, cfg),
            ..window_done(s.seg, next_sample)
        },
        events: s.events + events,
        used: s.used + 1,
    }
}

/// One more sample of the current window.
pub open spec fn sample_taken(
    seg: Segmenter,
    sample: Scalar32,
    idx: u64,
    amp_threshold: Scalar32,
) -> Segmenter {
    let above = amplitude(sample) >= amp_threshold.rank;
    Segmenter {
        n_in_window: (seg.n_in_window + 1) as usize,
        first_above_in_window: if above && seg.first_above_in_window is None {
            Some(idx)
        } else {
            seg.first_above_in_window
        },
        last_above_in_window: if above {
            Some(idx)
        } else {
            seg.last_above_in_window
        },
        ..seg
    }
}

/// Everything that stays fixed while a run of samples is segmented.
pub struct Run {
    pub base_sample: u64,
    pub amp_threshold: Scalar32,
    pub levels: Seq<WindowLevel>,
    pub cfg: SegmenterConfig,
    pub time: spec_fn(u64) -> u64,
    pub gated: spec_fn(u64) -> bool,
}

impl Run {
    /// The run describes a call with these arguments.
    pub open spec fn describes<F: Fn(u64) -> u64, G: Fn(u64) -> bool>(
        self,
        base_sample: u64,
        amp_threshold: Scalar32,
        levels: Seq<WindowLevel>,
        cfg: SegmenterConfig,
        sample_ns: F,
        gated: G,
    ) -> bool {
        &&& self.base_sample == base_sample
        &&& self.amp_threshold == amp_threshold
        &&& self.levels == levels
        &&& self.cfg == cfg
        &&& computes(sample_ns, self.time)
        &&& computes(gated, self.gated)
    }
}

/// Segmentation of a run of samples, window by window.
pub open spec fn segmented(s: Segmentation, samples: Seq<Scalar32>, run: Run) -> Segmentation
    decreases samples.len(),
{
    if samples.len() == 0 {
        s
    } else {
        let before = segmented(s, samples.drop_last(), run);
        let idx = (run.base_sample + samples.len() - 1) as u64;
        let taken = Segmentation {
            seg: sample_taken(before.seg, samples.last(), idx, run.amp_threshold),
            ..before
        };
        if taken.seg.n_in_window >= taken.seg.window_samples {
            window_closed(
                taken,
                (idx + 1) as u64,
                run.levels[before.used as int],
                run.cfg,
                run.time,
                run.gated,
            )
        } else {
            taken
        }
    }
}

/// The segmenter once the window length is known; the first length learned
/// stays.
pub open spec fn sized(seg: Segmenter, window: usize, base_sample: u64) -> Segmenter {
    if seg.window_samples == 0 {
        Segmenter {
            window_samples: if window == 0 {
                1
            } else {
                window
            },
            window_start_sample: base_sample,
            ..seg
        }
    } else {
        seg
    }
}

impl Segmenter {
    /// A window is never overfull.
    pub open spec fn wf(self) -> bool {
        self.window_samples == 0 && self.n_in_window == 0 || self.n_in_window < self.window_samples
    }

    /// An idle segmenter that has seen nothing.
    pub open spec fn fresh() -> Segmenter {
        Segmenter {
            active: None,
            window_samples: 0,
            n_in_window: 0,
            window_start_sample: 0,
            first_above_in_window: None,
            last_above_in_window: None,
            effective_threshold_db: Scalar32 { rank: crate::config::THRESHOLD_MINUS_45_DB },
        }
    }

    pub fn new() -> (seg: Segmenter)
        ensures
            seg == Segmenter::fresh(),
            seg.wf(),
    {
        Segmenter {
            active: None,
            window_samples: 0,
            n_in_window: 0,
            window_start_sample: 0,
            first_above_in_window: None,
            last_above_in_window: None,
            effective_threshold_db: Scalar32 { rank: crate::config::THRESHOLD_MINUS_45_DB },
        }
    }

    pub fn reset(&mut self)
        ensures
            *final(self) == Segmenter::fresh(),
            final(self).wf(),
    {
        *self = Segmenter::new();
    }

    /// Forgets any block in progress (no edge reported) and keeps everything
    /// else, the threshold included. Used at session start: activity that began
    /// before the session must not leak in, but the adaptation built up while
    /// idle must survive.
    pub fn abort_block(&mut self)
        ensures
            *final(self) == (Segmenter { active: None, ..*old(self) }),
    {
        self.active = None;
    }

    /// Number of windows that the next `n` samples complete, once windows hold
    /// `window` samples (if no length is known yet).
    pub open spec fn windows_in(self, n: nat, window: usize) -> int {
        let w = sized(self, window, 0).window_samples;
        (self.n_in_window + n) / w as int
    }

    /// Number of windows that the next `n` samples complete.
    pub fn windows_completed(&self, n: usize, window: usize) -> (count: usize)
        requires
            self.wf(),
        ensures
            count == self.windows_in(n as nat, window),
    {
        let w: usize = if self.window_samples == 0 {
            if window == 0 {
                1
            } else {
                window
            }
        } else {
            self.window_samples
        };
        let total: u128 = self.n_in_window as u128 + n as u128;
        let count: u128 = total / w as u128;
        proof {
            let t = total as int;
            let d = w as int;
            if d == 1 {
                assert(t / d == t) by (nonlinear_arith)
                    requires
                        d == 1,
                ;
            } else {
                assert(t / d <= n) by (nonlinear_arith)
                    requires
                        d >= 2,
                        t < d + n,
                        n >= 0,
                        t >= 0,
                ;
            }
        }
        count as usize
    }

    /// Feeds samples of the detection signal. `base_sample` is the absolute
    /// index of `samples[0]` in the stream, `window` the samples per window at
    /// the stream's rate (`None` while there is no usable rate), `levels` what
    /// was measured of the windows that these samples complete. `sample_ns` maps
    /// an absolute sample index to clock time; `gated(t_ns)` tells whether
    /// activity at that time must be ignored. Edges are appended to `out`.
    pub fn process(
        &mut self,
        samples: &[Scalar32],
        base_sample: u64,
        window: Option<usize>,
        amp_threshold: Scalar32,
        levels: &[WindowLevel],
        cfg: &SegmenterConfig,
        sample_ns: &impl Fn(u64) -> u64,
        gated: &impl Fn(u64) -> bool,
        out: &mut Vec<SegEvent>,
    )
        requires
            old(self).wf(),
            base_sample + samples@.len() <= u64::MAX,
            window matches Some(w) ==> levels@.len() == old(self).windows_in(samples@.len(), w),
            forall|x: u64| #[trigger] sample_ns.requires((x,)),
            forall|x: u64| #[trigger] gated.requires((x,)),
        ensures
            final(self).wf(),
            window is None ==> *final(self) == *old(self) && final(out)@ == old(out)@,
            window matches Some(w) ==> forall|run: Run| #[trigger]
                run.describes(
                    base_sample,
                    amp_threshold,
                    levels@,
                    *cfg,
                    *sample_ns,
                    *gated,
                ) ==> ({
                    let end = segmented(
                        Segmentation {
                            seg: sized(*old(self), w, base_sample),
                            events: old(out)@,
                            used: 0,
                        },
                        samples@,
                        run,
                    );
                    *final(self) == end.seg && final(out)@ == end.events && end.used
                        == levels@.len()
                }),
    {
        let w: usize = match window {
            Some(w) => w,
            None => {
                return;
            },
        };
        if self.window_samples == 0 {
            self.window_samples = if w == 0 {
                1
            } else {
                w
            };
            self.window_start_sample = base_sample;
        }
        let ghost start = Segmentation { seg: *self, events: out@, used: 0 };
        let ghost width = self.window_samples as int;
        let mut used: usize = 0;
        let mut i: usize = 0;
        proof {
            assert((start.seg.n_in_window + samples@.len()) / width == levels@.len());
            vstd::arithmetic::div_mod::lemma_fundamental_div_mod(
                start.seg.n_in_window + samples@.len(),
                width,
            );
            assert(0 * width == 0) by (nonlinear_arith);
            assert(levels@.len() * width <= start.seg.n_in_window + samples@.len() < (
            levels@.len() + 1) * width) by (nonlinear_arith)
                requires
                    start.seg.n_in_window + samples@.len() == width * levels@.len() + (
                    start.seg.n_in_window + samples@.len()) % width,
                    0 <= (start.seg.n_in_window + samples@.len()) % width < width,
            ;
        }
        while i < samples.len()
            invariant
                i <= samples@.len(),
                width == self.window_samples,
                self.wf(),
                width > 0,
                base_sample + samples@.len() <= u64::MAX,
                used * width + self.n_in_window == start.seg.n_in_window + i,
                levels@.len() * width <= start.seg.n_in_window + samples@.len() < (levels@.len()
                    + 1) * width,
                forall|x: u64| #[trigger] sample_ns.requires((x,)),
                forall|x: u64| #[trigger] gated.requires((x,)),
                forall|run: Run| #[trigger]
                    run.describes(
                        base_sample,
                        amp_threshold,
                        levels@,
                        *cfg,
                        *sample_ns,
                        *gated,
                    ) ==> (Segmentation {
                        seg: *self,
                        events: out@,
                        used: used as nat,
                    }) == segmented(start, samples@.take(i as int), run),
            decreases samples@.len() - i,
        {
            let s = samples[i];
            let abs_idx: u64 = base_sample + i as u64;
            assert(samples@.take(i + 1).drop_last() =~= samples@.take(i as int));
            assert(samples@.take(i + 1).last() == s);
            let magnitude: i64 = if s.rank < 0 {
                -(s.rank as i64)
            } else {
                s.rank as i64
            };
            let ghost before = *self;
            if magnitude >= amp_threshold.rank as i64 {
                if self.first_above_in_window.is_none() {
                    self.first_above_in_window = Some(abs_idx);
                }
                self.last_above_in_window = Some(abs_idx);
            }
            self.n_in_window = self.n_in_window + 1;
            assert(*self == sample_taken(before, s, abs_idx, amp_threshold));
            if self.n_in_window >= self.window_samples {
                proof {
                    assert(used < levels@.len()) by (nonlinear_arith)
                        requires
                            used * width + width == start.seg.n_in_window + i + 1,
                            i < samples@.len(),
                            start.seg.n_in_window + samples@.len() < (levels@.len() + 1) * width,
                            width > 0,
                    ;
                    assert((used + 1) * width == used * width + width) by (nonlinear_arith);
                }
                let level = levels[used];
                self.finish_window(abs_idx + 1, &level, cfg, sample_ns, gated, out);
                used = used + 1;
            }
            i = i + 1;
        }
        proof {
            assert(samples@.take(samples@.len() as int) =~= samples@);
            assert(used == levels@.len()) by (nonlinear_arith)
                requires
                    used * width <= start.seg.n_in_window + samples@.len() < used * width + width,
                    levels@.len() * width <= start.seg.n_in_window + samples@.len() < (
                    levels@.len() + 1) * width,
                    width > 0,
            ;
        }
    }

    fn finish_window(
        &mut self,
        next_sample: u64,
        level: &WindowLevel,
        cfg: &SegmenterConfig,
        sample_ns: &impl Fn(u64) -> u64,
        gated: &impl Fn(u64) -> bool,
        out: &mut Vec<SegEvent>,
    )
        requires
            old(self).window_samples > 0,
            forall|x: u64| #[trigger] sample_ns.requires((x,)),
            forall|x: u64| #[trigger] gated.requires((x,)),
        ensures
            final(self).wf(),
            final(self).window_samples == old(self).window_samples,
            final(self).n_in_window == 0,
            forall|time: spec_fn(u64) -> u64, gate: spec_fn(u64) -> bool, used: nat|
                #![trigger computes(*sample_ns, time), computes(*gated, gate), used + 1]
                computes(*sample_ns, time) && computes(*gated, gate) ==> (Segmentation {
                    seg: *final(self),
                    events: final(out)@,
                    used: used + 1,
                }) == window_closed(
                    Segmentation { seg: *old(self), events: old(out)@, used },
                    next_sample,
                    *level,
                    *cfg,
                    time,
                    gate,
                ),
    {
        self.effective_threshold_db = if !cfg.auto_threshold {
            cfg.threshold_db
        } else if level.auto_threshold_db.rank >= AUTO_FLOOR_DB {
            level.auto_threshold_db
        } else {
            Scalar32 { rank: AUTO_FLOOR_DB }
        };
        let window_end_ns: u64 = sample_ns(next_sample);
        let heard = !gated(window_end_ns);
        let over = heard && level.rms_db.rank >= self.effective_threshold_db.rank;
        match self.active {
            None => {
                if over {
                    let open_sample: u64 = self.first_above_in_window.unwrap_or(
                        self.window_start_sample,
                    );
                    let open_ns: u64 = sample_ns(open_sample);
                    let last_above_ns: u64 = sample_ns(
                        self.last_above_in_window.unwrap_or(open_sample),
                    );
                    out.push(SegEvent::Open { t_ns: open_ns });
                    self.active = Some(ActiveBlock { open_ns, last_above_ns });
                }
            },
            Some(b) => {
                let mut last_above_ns: u64 = b.last_above_ns;
                if let Some(last) = self.last_above_in_window {
                    let last_ns: u64 = sample_ns(last);
                    if over || (heard && last_ns > last_above_ns) {
                        last_above_ns = last_ns;
                    }
                }
                let kept = ActiveBlock { open_ns: b.open_ns, last_above_ns };
                if !over && Millis::between(last_above_ns, window_end_ns).at_least(
                    cfg.hangover_ms,
                ) {
                    out.push(close_or_cancel(kept, cfg));
                    self.active = None;
                } else {
                    self.active = Some(kept);
                }
            },
        }
        self.n_in_window = 0;
        self.window_start_sample = next_sample;
        self.first_above_in_window = None;
        self.last_above_in_window = None;
    }

    /// Ends any block in progress, at the end of a session.
    pub fn finalize(&mut self, cfg: &SegmenterConfig, out: &mut Vec<SegEvent>)
        ensures
            *final(self) == (Segmenter { active: None, ..*old(self) }),
            final(out)@ == match old(self).active {
                Some(b) => old(out)@.push(block_end(b, *cfg)),
                None => old(out)@,
            },
    {
        if let Some(b) = self.active {
            out.push(close_or_cancel(b, cfg));
        }
        self.active = None;
    }
}

/// Closes the block if it met the minimum length, otherwise cancels it.
fn close_or_cancel(b: ActiveBlock, cfg: &SegmenterConfig) -> (event: SegEvent)
    ensures
        event == block_end(b, *cfg),
{
    if Millis::between(b.open_ns, b.last_above_ns).at_least(cfg.min_block_ms) {
        SegEvent::Close { t_ns: b.last_above_ns }
    } else {
        SegEvent::Cancel
    }
}

} // verus!
