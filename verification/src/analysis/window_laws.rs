//! What one sample does to a lane, in terms of samples, levels and times alone.
//! Longer runs are made up of such steps.

use vstd::prelude::*;
use crate::analysis::segmenter::{
    block_end, computes, segmented, ActiveBlock, Run, SegEvent, Segmentation, Segmenter,
    WindowLevel,
};
use crate::config::SegmenterConfig;
use crate::scalar::Scalar32;

verus! {

/// The sample swings to the amplitude threshold, up or down.
pub open spec fn crosses(x: Scalar32, amp_threshold: Scalar32) -> bool {
    x.rank >= amp_threshold.rank || -x.rank >= amp_threshold.rank
}

/// The window is at or over the threshold in force: the one set by the user, or
/// with the automatic one the noise floor's, but at least -65 dBFS.
pub open spec fn is_loud(level: WindowLevel, cfg: SegmenterConfig) -> bool {
    if cfg.auto_threshold {
        level.rms_db.rank >= level.auto_threshold_db.rank && level.rms_db.rank >= -0x4282_0000
    } else {
        level.rms_db.rank >= cfg.threshold_db.rank
    }
}

/// First sample of the window to cross, this one included.
pub open spec fn first_crossing(seg: Segmenter, x: Scalar32, run: Run) -> Option<u64> {
    match seg.first_above_in_window {
        Some(n) => Some(n),
        None => if crosses(x, run.amp_threshold) {
            Some(run.base_sample)
        } else {
            None
        },
    }
}

/// Last sample of the window to cross, this one included.
pub open spec fn last_crossing(seg: Segmenter, x: Scalar32, run: Run) -> Option<u64> {
    if crosses(x, run.amp_threshold) {
        Some(run.base_sample)
    } else {
        seg.last_above_in_window
    }
}

/// A sample within a window is counted and its crossing noted; nothing is judged
/// before the window is full.
pub proof fn law_sample_within_a_window(start: Segmentation, x: Scalar32, run: Run)
    requires
        start.seg.n_in_window + 1 < start.seg.window_samples,
        run.base_sample < u64::MAX,
    ensures
        ({
            let after = segmented(start, seq![x], run);
            &&& after.events == start.events
            &&& after.used == start.used
            &&& after.seg.active == start.seg.active
            &&& after.seg.n_in_window == start.seg.n_in_window + 1
            &&& after.seg.window_samples == start.seg.window_samples
            &&& after.seg.window_start_sample == start.seg.window_start_sample
            &&& after.seg.effective_threshold_db == start.seg.effective_threshold_db
            &&& after.seg.first_above_in_window == first_crossing(start.seg, x, run)
            &&& after.seg.last_above_in_window == last_crossing(start.seg, x, run)
        }),
{
    assert(seq![x].drop_last() =~= Seq::empty());
    reveal_with_fuel(segmented, 2);
}

/// With the automatic threshold off, a window is held against the threshold that
/// the user set, and against nothing else; with it on, against the noise floor's,
/// but never below -65 dBFS. A full window uses up one level and starts the next
/// window clean.
pub proof fn law_threshold_in_force(start: Segmentation, x: Scalar32, run: Run)
    requires
        start.seg.n_in_window + 1 == start.seg.window_samples,
        run.base_sample < u64::MAX,
    ensures
        ({
            let after = segmented(start, seq![x], run);
            let auto_db = run.levels[start.used as int].auto_threshold_db;
            &&& !run.cfg.auto_threshold ==> after.seg.effective_threshold_db
                == run.cfg.threshold_db
            &&& run.cfg.auto_threshold && auto_db.rank >= -0x4282_0000
                ==> after.seg.effective_threshold_db == auto_db
            &&& run.cfg.auto_threshold && auto_db.rank < -0x4282_0000
                ==> after.seg.effective_threshold_db.rank == -0x4282_0000
            &&& after.used == start.used + 1
            &&& after.seg.n_in_window == 0
            &&& after.seg.window_samples == start.seg.window_samples
            &&& after.seg.window_start_sample == run.base_sample + 1
            &&& after.seg.first_above_in_window is None
            &&& after.seg.last_above_in_window is None
        }),
{
    assert(seq![x].drop_last() =~= Seq::empty());
    reveal_with_fuel(segmented, 2);
}

/// An idle lane reacts to a full window exactly if it is loud and not gated: then
/// a block opens at the first sample of the window to cross, or at the window's
/// start where none does, and reaches to the last to cross.
pub proof fn law_idle_lane_opens_on_loud_windows(start: Segmentation, x: Scalar32, run: Run)
    requires
        start.seg.n_in_window + 1 == start.seg.window_samples,
        run.base_sample < u64::MAX,
        start.seg.active is None,
    ensures
        ({
            let after = segmented(start, seq![x], run);
            let level = run.levels[start.used as int];
            let gated = (run.gated)((run.time)((run.base_sample + 1) as u64));
            let first = match first_crossing(start.seg, x, run) {
                Some(n) => n,
                None => start.seg.window_start_sample,
            };
            let last = match last_crossing(start.seg, x, run) {
                Some(n) => n,
                None => first,
            };
            &&& !is_loud(level, run.cfg) || gated ==> after.events == start.events
                && after.seg.active is None
            &&& is_loud(level, run.cfg) && !gated ==> {
                &&& after.events.len() == start.events.len() + 1
                &&& after.events.drop_last() == start.events
                &&& after.events.last() == (SegEvent::Open { t_ns: (run.time)(first) })
                &&& after.seg.active == Some(
                    ActiveBlock {
                        open_ns: (run.time)(first),
                        last_above_ns: (run.time)(last),
                    },
                )
            }
        }),
{
    assert(seq![x].drop_last() =~= Seq::empty());
    reveal_with_fuel(segmented, 2);
    let after = segmented(start, seq![x], run);
    if after.seg.active is Some {
        assert(after.events.drop_last() =~= start.events);
    } else {
        assert(after.events =~= start.events);
    }
}

/// A loud window that is not gated keeps a block in progress open and moves its
/// end to the last sample that crosses.
pub proof fn law_loud_window_extends_a_block(
    start: Segmentation,
    b: ActiveBlock,
    x: Scalar32,
    run: Run,
)
    requires
        start.seg.n_in_window + 1 == start.seg.window_samples,
        run.base_sample < u64::MAX,
        start.seg.active == Some(b),
        is_loud(run.levels[start.used as int], run.cfg),
        !(run.gated)((run.time)((run.base_sample + 1) as u64)),
    ensures
        ({
            let after = segmented(start, seq![x], run);
            &&& after.events == start.events
            &&& after.seg.active is Some
            &&& after.seg.active->0.open_ns == b.open_ns
            &&& last_crossing(start.seg, x, run) matches Some(n)
                ==> after.seg.active->0.last_above_ns == (run.time)(n)
            &&& last_crossing(start.seg, x, run) is None ==> after.seg.active == Some(b)
        }),
{
    assert(seq![x].drop_last() =~= Seq::empty());
    reveal_with_fuel(segmented, 2);
    assert(segmented(start, seq![x], run).events =~= start.events);
}

/// A quiet window, or a gated one, ends a block in progress exactly once the
/// hangover has passed since its last sound: it is closed there if it lasted the
/// minimum, and discarded otherwise. A late crossing in a quiet window still
/// counts as sound, one in a gated window does not.
pub proof fn law_silence_ends_a_block(start: Segmentation, b: ActiveBlock, x: Scalar32, run: Run)
    requires
        start.seg.n_in_window + 1 == start.seg.window_samples,
        run.base_sample < u64::MAX,
        start.seg.active == Some(b),
        !is_loud(run.levels[start.used as int], run.cfg) || (run.gated)(
            (run.time)((run.base_sample + 1) as u64),
        ),
    ensures
        ({
            let after = segmented(start, seq![x], run);
            let end_ns = (run.time)((run.base_sample + 1) as u64);
            let last_ns = match last_crossing(start.seg, x, run) {
                Some(n) if !(run.gated)(end_ns) && (run.time)(n) > b.last_above_ns => (run.time)(n),
                _ => b.last_above_ns,
            };
            let waited = end_ns >= last_ns && end_ns - last_ns >= run.cfg.hangover_ms * 1_000_000
                || run.cfg.hangover_ms == 0;
            let lasted = last_ns >= b.open_ns && last_ns - b.open_ns >= run.cfg.min_block_ms
                * 1_000_000 || run.cfg.min_block_ms == 0;
            &&& !waited ==> after.events == start.events && after.seg.active == Some(
                ActiveBlock { open_ns: b.open_ns, last_above_ns: last_ns },
            )
            &&& waited ==> {
                &&& after.seg.active is None
                &&& after.events.len() == start.events.len() + 1
                &&& after.events.drop_last() == start.events
                &&& lasted ==> after.events.last() == (SegEvent::Close { t_ns: last_ns })
                &&& !lasted ==> after.events.last() == SegEvent::Cancel
            }
        }),
{
    assert(seq![x].drop_last() =~= Seq::empty());
    reveal_with_fuel(segmented, 2);
    let after = segmented(start, seq![x], run);
    if after.seg.active is None {
        assert(after.events.drop_last() =~= start.events);
    } else {
        assert(after.events =~= start.events);
    }
}

/// The end of a session closes a block that lasted the minimum at its last
/// sound, and discards a shorter one.
pub proof fn law_block_needs_the_minimum(b: ActiveBlock, cfg: SegmenterConfig)
    requires
        b.open_ns <= b.last_above_ns,
    ensures
        b.last_above_ns - b.open_ns >= cfg.min_block_ms * 1_000_000 ==> block_end(b, cfg) == (
        SegEvent::Close { t_ns: b.last_above_ns }),
        b.last_above_ns - b.open_ns < cfg.min_block_ms * 1_000_000 ==> block_end(b, cfg)
            == SegEvent::Cancel,
{
}

/// With the automatic threshold off, an idle lane whose windows all stay below
/// the threshold that the user set reports nothing, however long it is fed.
pub proof fn law_below_the_set_threshold_nothing_opens(
    start: Segmentation,
    samples: Seq<Scalar32>,
    run: Run,
)
    requires
        !run.cfg.auto_threshold,
        start.seg.active is None,
        forall|k: int|
            start.used <= k < segmented(start, samples, run).used ==> (
            #[trigger] run.levels[k]).rms_db.rank < run.cfg.threshold_db.rank,
    ensures
        segmented(start, samples, run).events == start.events,
        segmented(start, samples, run).seg.active is None,
        segmented(start, samples, run).used >= start.used,
    decreases samples.len(),
{
    if samples.len() > 0 {
        let before = segmented(start, samples.drop_last(), run);
        assert(before.used <= segmented(start, samples, run).used);
        law_below_the_set_threshold_nothing_opens(start, samples.drop_last(), run);
        if before.used < segmented(start, samples, run).used {
            assert(run.levels[before.used as int].rms_db.rank < run.cfg.threshold_db.rank);
        }
        assert(before.events + Seq::<SegEvent>::empty() =~= before.events);
    }
}

/// With the automatic threshold off, a full window at or over the threshold that
/// the user set opens a block on an idle lane, unless it is gated.
pub proof fn law_at_the_set_threshold_a_block_opens(start: Segmentation, x: Scalar32, run: Run)
    requires
        !run.cfg.auto_threshold,
        start.seg.active is None,
        start.seg.n_in_window + 1 == start.seg.window_samples,
        run.base_sample < u64::MAX,
        run.levels[start.used as int].rms_db.rank >= run.cfg.threshold_db.rank,
        !(run.gated)((run.time)((run.base_sample + 1) as u64)),
    ensures
        ({
            let after = segmented(start, seq![x], run);
            &&& after.seg.active is Some
            &&& after.events.len() == start.events.len() + 1
            &&& after.events.last() is Open
            &&& after.seg.effective_threshold_db == run.cfg.threshold_db
        }),
{
    law_idle_lane_opens_on_loud_windows(start, x, run);
    law_threshold_in_force(start, x, run);
}

/// As many windows are complete as fit into the samples seen of the one in
/// progress and the new ones together, at the length known, or else given, which
/// is at least one sample.
pub proof fn law_windows_completed(seg: Segmenter, n: nat, window: usize)
    ensures
        ({
            let w: int = if seg.window_samples > 0 {
                seg.window_samples as int
            } else if window > 0 {
                window as int
            } else {
                1
            };
            let k = seg.windows_in(n, window);
            &&& k * w <= seg.n_in_window + n
            &&& seg.n_in_window + n < (k + 1) * w
        }),
{
    let w: int = if seg.window_samples > 0 {
        seg.window_samples as int
    } else if window > 0 {
        window as int
    } else {
        1
    };
    let x = seg.n_in_window + n;
    vstd::arithmetic::div_mod::lemma_fundamental_div_mod(x, w);
    let k = x / w;
    assert(k * w <= x < (k + 1) * w) by (nonlinear_arith)
        requires
            x == w * k + x % w,
            0 <= x % w < w,
    ;
}

/// A segmenter that has seen nothing is idle, knows no window length, and shows
/// -45 dBFS.
pub proof fn law_new_segmenter_is_idle()
    ensures
        Segmenter::fresh().active is None,
        Segmenter::fresh().window_samples == 0,
        Segmenter::fresh().n_in_window == 0,
        Segmenter::fresh().first_above_in_window is None,
        Segmenter::fresh().last_above_in_window is None,
        Segmenter::fresh().effective_threshold_db.rank == -0x4234_0000,
{
}

/// A function computes a value wherever nothing else can come back from it.
pub proof fn law_what_a_function_computes<T, F: Fn(u64) -> T>(f: F, value: spec_fn(u64) -> T)
    ensures
        computes(f, value) <==> forall|x: u64, y: T| #[trigger] f.ensures((x,), y) ==> y == value(x),
{
}

/// A call is described by its own arguments, with whatever its two functions
/// compute.
pub proof fn law_call_is_described_by_its_arguments<F: Fn(u64) -> u64, G: Fn(u64) -> bool>(
    run: Run,
    sample_ns: F,
    gated: G,
)
    requires
        computes(sample_ns, run.time),
        computes(gated, run.gated),
    ensures
        run.describes(
            run.base_sample,
            run.amp_threshold,
            run.levels,
            run.cfg,
            sample_ns,
            gated,
        ),
{
}

} // verus!
