//! What holds of a segmented lane as a whole.

use vstd::prelude::*;
use crate::analysis::segmenter::{
    block_end, judged, sample_taken, segmented, sized, threshold_after, window_closed, Run,
    SegEvent, Segmentation, Segmenter, WindowLevel,
};
use crate::config::SegmenterConfig;
use crate::millis::{span_ns, NS_PER_MS};
use crate::scalar::Scalar32;

verus! {

/// Opens and ends take turns, and a block is in progress exactly if the last
/// edge opened one.
pub open spec fn edges_alternate(s: Segmentation) -> bool {
    &&& forall|k: int| 0 <= k < s.events.len() ==> (#[trigger] s.events[k] is Open <==> k % 2 == 0)
    &&& (s.seg.active is Some <==> s.events.len() % 2 == 1)
}

/// The block in progress is the one that the last edge opened.
pub open spec fn block_in_progress(s: Segmentation) -> bool {
    s.seg.active matches Some(b) ==> s.events.len() > 0 && s.events.last() == (SegEvent::Open {
        t_ns: b.open_ns,
    })
}

/// Every closed block lasted at least the minimum.
pub open spec fn closed_blocks_last(s: Segmentation, cfg: SegmenterConfig) -> bool {
    forall|k: int|
        1 <= k < s.events.len() ==> (#[trigger] s.events[k] matches SegEvent::Close { t_ns }
            ==> s.events[k - 1] is Open && span_ns(s.events[k - 1]->Open_t_ns, t_ns)
            >= cfg.min_block_ms * NS_PER_MS)
}

/// A lane that starts idle reports edges that alternate, beginning with an
/// open, each closed block at least as long as the minimum.
pub proof fn law_edges_form_blocks(seg: Segmenter, samples: Seq<Scalar32>, run: Run)
    requires
        seg.active is None,
    ensures
        ({
            let s = segmented(Segmentation { seg, events: Seq::empty(), used: 0 }, samples, run);
            edges_alternate(s) && block_in_progress(s) && closed_blocks_last(s, run.cfg)
        }),
{
    lemma_edges_form_blocks(Segmentation { seg, events: Seq::empty(), used: 0 }, samples, run);
}

proof fn lemma_edges_form_blocks(start: Segmentation, samples: Seq<Scalar32>, run: Run)
    requires
        edges_alternate(start),
        block_in_progress(start),
        closed_blocks_last(start, run.cfg),
    ensures
        edges_alternate(segmented(start, samples, run)),
        block_in_progress(segmented(start, samples, run)),
        closed_blocks_last(segmented(start, samples, run), run.cfg),
    decreases samples.len(),
{
    if samples.len() > 0 {
        let before = segmented(start, samples.drop_last(), run);
        lemma_edges_form_blocks(start, samples.drop_last(), run);
        let idx = (run.base_sample + samples.len() - 1) as u64;
        let taken = Segmentation {
            seg: sample_taken(before.seg, samples.last(), idx, run.amp_threshold),
            ..before
        };
        if taken.seg.n_in_window >= taken.seg.window_samples {
            let level = run.levels[before.used as int];
            let next = (idx + 1) as u64;
            let (active, events) = judged(taken.seg, next, level, run.cfg, run.time, run.gated);
            let after = window_closed(taken, next, level, run.cfg, run.time, run.gated);
            assert(after == segmented(start, samples, run));
            assert(events.len() <= 1);
            if events.len() == 1 {
                assert(after.events == taken.events.push(events[0]));
                assert(after.events.last() == events[0]);
                assert(after.events.len() == taken.events.len() + 1);
            } else {
                assert(after.events == taken.events);
            }
        }
    }
}

/// While activity is gated an idle lane stays idle and reports nothing, however
/// loud it is.
pub proof fn law_gate_silences(start: Segmentation, samples: Seq<Scalar32>, run: Run)
    requires
        start.seg.active is None,
        run.base_sample + samples.len() <= u64::MAX,
        forall|n: u64|
            run.base_sample < n <= run.base_sample + samples.len() ==> (run.gated)(
                #[trigger] (run.time)(n),
            ),
    ensures
        segmented(start, samples, run).events == start.events,
        segmented(start, samples, run).seg.active is None,
    decreases samples.len(),
{
    if samples.len() > 0 {
        law_gate_silences(start, samples.drop_last(), run);
        assert(start.events + Seq::<SegEvent>::empty() =~= start.events);
        let end = (run.base_sample + samples.len()) as u64;
        assert((run.gated)((run.time)(end)));
    }
}

/// While activity is gated nothing heard keeps a block in progress alive: its
/// end does not move, and once the hangover has passed it ends there.
pub proof fn law_gate_holds_block_end(start: Segmentation, samples: Seq<Scalar32>, run: Run)
    requires
        start.seg.active is Some,
        run.base_sample + samples.len() <= u64::MAX,
        forall|n: u64|
            run.base_sample < n <= run.base_sample + samples.len() ==> (run.gated)(
                #[trigger] (run.time)(n),
            ),
    ensures
        ({
            let s = segmented(start, samples, run);
            ||| s.seg.active == start.seg.active && s.events == start.events
            ||| s.seg.active is None && s.events == start.events.push(
                block_end(start.seg.active->0, run.cfg),
            )
        }),
    decreases samples.len(),
{
    if samples.len() > 0 {
        law_gate_holds_block_end(start, samples.drop_last(), run);
        let before = segmented(start, samples.drop_last(), run);
        let after = segmented(start, samples, run);
        let end = (run.base_sample + samples.len()) as u64;
        assert((run.gated)((run.time)(end)));
        assert(before.events + Seq::<SegEvent>::empty() =~= before.events);
        let ended = block_end(start.seg.active->0, run.cfg);
        assert(start.events + seq![ended] =~= start.events.push(ended));
    }
}

/// A lane that stays below its threshold reports nothing while it is idle.
pub proof fn law_quiet_stays_idle(start: Segmentation, samples: Seq<Scalar32>, run: Run)
    requires
        start.seg.active is None,
        forall|k: int|
            (#[trigger] run.levels[k]).rms_db.rank < threshold_after(run.levels[k], run.cfg).rank,
    ensures
        segmented(start, samples, run).events == start.events,
        segmented(start, samples, run).seg.active is None,
    decreases samples.len(),
{
    if samples.len() > 0 {
        law_quiet_stays_idle(start, samples.drop_last(), run);
        assert(start.events + Seq::<SegEvent>::empty() =~= start.events);
    }
}

/// An idle lane opens a block with the first window that is heard to be loud, at
/// the first crossing in it.
pub proof fn law_loud_window_opens_block(
    seg: Segmenter,
    next_sample: u64,
    level: WindowLevel,
    cfg: SegmenterConfig,
    time: spec_fn(u64) -> u64,
    gated: spec_fn(u64) -> bool,
)
    requires
        seg.active is None,
        seg.first_above_in_window is Some,
        level.rms_db.rank >= threshold_after(level, cfg).rank,
        !gated(time(next_sample)),
    ensures
        ({
            let open_ns = time(seg.first_above_in_window->0);
            let (active, events) = judged(seg, next_sample, level, cfg, time, gated);
            &&& events == seq![SegEvent::Open { t_ns: open_ns }]
            &&& active is Some && active->0.open_ns == open_ns
        }),
{
}

/// How a stream is cut into batches does not matter: two batches one after the
/// other give what the whole gives.
pub proof fn law_batches_join(
    start: Segmentation,
    first: Seq<Scalar32>,
    second: Seq<Scalar32>,
    run: Run,
)
    requires
        run.base_sample + first.len() + second.len() <= u64::MAX,
    ensures
        segmented(start, first + second, run) == segmented(
            segmented(start, first, run),
            second,
            (Run { base_sample: (run.base_sample + first.len()) as u64, ..run }),
        ),
    decreases second.len(),
{
    if second.len() == 0 {
        assert(first + second =~= first);
    } else {
        law_batches_join(start, first, second.drop_last(), run);
        assert((first + second).drop_last() =~= first + second.drop_last());
        assert((first + second).last() == second.last());
    }
}

/// A block ends only after silence has lasted for the hangover, and the edge it
/// reports lies before that silence: the hangover is never part of a block.
pub proof fn law_end_is_backdated(
    seg: Segmenter,
    next_sample: u64,
    level: WindowLevel,
    cfg: SegmenterConfig,
    time: spec_fn(u64) -> u64,
    gated: spec_fn(u64) -> bool,
)
    ensures
        ({
            let (active, events) = judged(seg, next_sample, level, cfg, time, gated);
            &&& forall|k: int|
                0 <= k < events.len() ==> (#[trigger] events[k] matches SegEvent::Close { t_ns }
                    ==> span_ns(t_ns, time(next_sample)) >= cfg.hangover_ms * NS_PER_MS)
            &&& seg.active is Some && active is None ==> events.len() == 1 && events[0] !is Open
        }),
{
}

/// Time `t` is that of a sample between `from` and `to`.
pub open spec fn sampled_between(t: u64, from: int, to: int, time: spec_fn(u64) -> u64) -> bool {
    exists|n: u64| from <= n < to && t == #[trigger] time(n)
}

/// Every edge reported, and both ends of the block in progress, stand at a
/// sample of the stream between `from` and `to`.
pub open spec fn edges_sampled(s: Segmentation, from: int, to: int, run: Run) -> bool {
    &&& s.seg.active matches Some(b) ==> sampled_between(b.open_ns, from, to, run.time)
        && sampled_between(b.last_above_ns, from, to, run.time)
    &&& forall|k: int|
        0 <= k < s.events.len() ==> match #[trigger] s.events[k] {
            SegEvent::Open { t_ns } => sampled_between(t_ns, from, to, run.time),
            SegEvent::Close { t_ns } => sampled_between(t_ns, from, to, run.time),
            SegEvent::Cancel => true,
        }
}

/// The current window and its crossings lie between `from` and `to`.
spec fn window_within(seg: Segmenter, from: int, to: int) -> bool {
    &&& from <= seg.window_start_sample <= to
    &&& seg.n_in_window > 0 ==> seg.window_start_sample < to
    &&& seg.first_above_in_window matches Some(n) ==> from <= n < to
    &&& seg.last_above_in_window matches Some(n) ==> from <= n < to
}

/// Edges are sample-accurate: on an idle lane at a window's start, every edge
/// reported is the time of one of the samples fed.
pub proof fn law_edges_are_sample_times(seg: Segmenter, samples: Seq<Scalar32>, run: Run)
    requires
        seg.active is None,
        seg.n_in_window == 0,
        seg.window_start_sample == run.base_sample,
        seg.first_above_in_window is None,
        seg.last_above_in_window is None,
        run.base_sample + samples.len() <= u64::MAX,
    ensures
        edges_sampled(
            segmented(Segmentation { seg, events: Seq::empty(), used: 0 }, samples, run),
            run.base_sample as int,
            run.base_sample + samples.len(),
            run,
        ),
{
    lemma_edges_sampled(Segmentation { seg, events: Seq::empty(), used: 0 }, samples, run);
}

proof fn lemma_sampled_wider(t: u64, from: int, to: int, time: spec_fn(u64) -> u64)
    requires
        sampled_between(t, from, to, time),
    ensures
        sampled_between(t, from, to + 1, time),
{
    let n = choose|n: u64| from <= n < to && t == #[trigger] time(n);
    assert(from <= n < to + 1 && t == time(n));
}

proof fn lemma_edges_sampled(start: Segmentation, samples: Seq<Scalar32>, run: Run)
    requires
        run.base_sample + samples.len() <= u64::MAX,
        edges_sampled(start, run.base_sample as int, run.base_sample as int, run),
        window_within(start.seg, run.base_sample as int, run.base_sample as int),
    ensures
        ({
            let s = segmented(start, samples, run);
            let to = run.base_sample + samples.len();
            edges_sampled(s, run.base_sample as int, to, run) && window_within(
                s.seg,
                run.base_sample as int,
                to,
            )
        }),
    decreases samples.len(),
{
    if samples.len() > 0 {
        let from = run.base_sample as int;
        let to = run.base_sample + samples.len() - 1;
        let before = segmented(start, samples.drop_last(), run);
        lemma_edges_sampled(start, samples.drop_last(), run);
        let idx = to as u64;
        let taken = Segmentation {
            seg: sample_taken(before.seg, samples.last(), idx, run.amp_threshold),
            ..before
        };
        if let Some(b) = before.seg.active {
            lemma_sampled_wider(b.open_ns, from, to, run.time);
            lemma_sampled_wider(b.last_above_ns, from, to, run.time);
        }
        assert forall|k: int| 0 <= k < before.events.len() implies match #[trigger] before.events[k] {
            SegEvent::Open { t_ns } => sampled_between(t_ns, from, to + 1, run.time),
            SegEvent::Close { t_ns } => sampled_between(t_ns, from, to + 1, run.time),
            SegEvent::Cancel => true,
        } by {
            match before.events[k] {
                SegEvent::Open { t_ns } => lemma_sampled_wider(t_ns, from, to, run.time),
                SegEvent::Close { t_ns } => lemma_sampled_wider(t_ns, from, to, run.time),
                SegEvent::Cancel => {},
            }
        }
        assert(window_within(taken.seg, from, to + 1));
        if taken.seg.n_in_window >= taken.seg.window_samples {
            let level = run.levels[before.used as int];
            let next = (idx + 1) as u64;
            let (active, events) = judged(taken.seg, next, level, run.cfg, run.time, run.gated);
            let after = window_closed(taken, next, level, run.cfg, run.time, run.gated);
            assert(after == segmented(start, samples, run));
            if let Some(n) = taken.seg.first_above_in_window {
                assert(sampled_between((run.time)(n), from, to + 1, run.time));
            }
            if let Some(n) = taken.seg.last_above_in_window {
                assert(sampled_between((run.time)(n), from, to + 1, run.time));
            }
            let n = taken.seg.window_start_sample;
            assert(sampled_between((run.time)(n), from, to + 1, run.time));
            assert forall|k: int| 0 <= k < after.events.len() implies match #[trigger] after.events[k] {
                SegEvent::Open { t_ns } => sampled_between(t_ns, from, to + 1, run.time),
                SegEvent::Close { t_ns } => sampled_between(t_ns, from, to + 1, run.time),
                SegEvent::Cancel => true,
            } by {
                if k < taken.events.len() {
                    assert(after.events[k] == before.events[k]);
                } else {
                    assert(after.events[k] == events[k - taken.events.len()]);
                }
            }
        }
    }
}

/// One call that feeds samples, and what was in force at it.
pub struct Call {
    pub samples: Seq<Scalar32>,
    /// Samples per window; `None` while there is no usable rate.
    pub window: Option<usize>,
    pub amp_threshold: Scalar32,
    pub levels: Seq<WindowLevel>,
    pub gated: spec_fn(u64) -> bool,
}

/// Number of samples in all calls together.
pub open spec fn samples_in(calls: Seq<Call>) -> nat
    decreases calls.len(),
{
    if calls.len() == 0 {
        0
    } else {
        samples_in(calls.drop_last()) + calls.last().samples.len()
    }
}

/// A segmentation after one more call, whose first sample has index
/// `base_sample`.
pub open spec fn fed(
    s: Segmentation,
    base_sample: u64,
    call: Call,
    cfg: SegmenterConfig,
    time: spec_fn(u64) -> u64,
) -> Segmentation {
    match call.window {
        None => s,
        Some(w) => segmented(
            Segmentation { seg: sized(s.seg, w, base_sample), events: s.events, used: 0 },
            call.samples,
            Run {
                base_sample,
                amp_threshold: call.amp_threshold,
                levels: call.levels,
                cfg,
                time,
                gated: call.gated,
            },
        ),
    }
}

/// A new segmenter after a number of calls on one stream, each of which starts
/// where the one before it ended. The first starts at `base_sample`.
pub open spec fn fed_all(
    base_sample: u64,
    calls: Seq<Call>,
    cfg: SegmenterConfig,
    time: spec_fn(u64) -> u64,
) -> Segmentation
    decreases calls.len(),
{
    if calls.len() == 0 {
        Segmentation { seg: Segmenter::fresh(), events: Seq::empty(), used: 0 }
    } else {
        fed(
            fed_all(base_sample, calls.drop_last(), cfg, time),
            (base_sample + samples_in(calls.drop_last())) as u64,
            calls.last(),
            cfg,
            time,
        )
    }
}

/// Later samples are not earlier in time.
pub open spec fn nondecreasing(time: spec_fn(u64) -> u64) -> bool {
    forall|m: u64, n: u64| m <= n ==> #[trigger] time(m) <= #[trigger] time(n)
}

/// When an edge happened; that of a block discarded is not told.
pub open spec fn edge_ns(event: SegEvent) -> Option<u64> {
    match event {
        SegEvent::Open { t_ns } => Some(t_ns),
        SegEvent::Close { t_ns } => Some(t_ns),
        SegEvent::Cancel => None,
    }
}

/// No edge is later than `t_ns`.
pub open spec fn edges_by(events: Seq<SegEvent>, t_ns: u64) -> bool {
    forall|k: int|
        0 <= k < events.len() ==> (edge_ns(#[trigger] events[k]) matches Some(t) ==> t <= t_ns)
}

/// The times of the edges never decrease.
pub open spec fn edges_ascend(events: Seq<SegEvent>) -> bool {
    forall|i: int, j: int|
        0 <= i <= j < events.len() ==> (edge_ns(#[trigger] events[i]) matches Some(a) ==> (edge_ns(
            #[trigger] events[j],
        ) matches Some(b) ==> a <= b))
}

/// Every block closed lasted the minimum from its open to its close, and was
/// closed no sooner than the hangover after that, as of time `now_ns`.
pub open spec fn closes_wait(events: Seq<SegEvent>, cfg: SegmenterConfig, now_ns: u64) -> bool {
    forall|k: int|
        0 <= k < events.len() ==> (#[trigger] events[k] matches SegEvent::Close { t_ns } ==> {
            &&& k > 0 && events[k - 1] is Open
            &&& t_ns >= events[k - 1]->Open_t_ns + cfg.min_block_ms * NS_PER_MS
            &&& t_ns + cfg.hangover_ms * NS_PER_MS <= now_ns
        })
}

/// Edges up to `t_ns`, as of time `now_ns`.
#[verifier::opaque]
spec fn edges_timed(
    events: Seq<SegEvent>,
    t_ns: u64,
    cfg: SegmenterConfig,
    now_ns: u64,
) -> bool {
    edges_by(events, t_ns) && edges_ascend(events) && closes_wait(events, cfg, now_ns)
}

proof fn lemma_edges_later(
    events: Seq<SegEvent>,
    t_ns: u64,
    now_ns: u64,
    later_t_ns: u64,
    later_ns: u64,
    cfg: SegmenterConfig,
)
    requires
        edges_timed(events, t_ns, cfg, now_ns),
        t_ns <= later_t_ns,
        now_ns <= later_ns,
    ensures
        edges_timed(events, later_t_ns, cfg, later_ns),
{
    reveal(edges_timed);
}

/// The crossings of the current window lie between its start and `to`, the
/// block in progress lies before it, and all edges lie before that.
#[verifier::opaque]
spec fn well_timed(
    s: Segmentation,
    to: int,
    cfg: SegmenterConfig,
    time: spec_fn(u64) -> u64,
) -> bool {
    let begin = s.seg.window_start_sample;
    &&& begin <= to <= u64::MAX
    &&& s.seg.first_above_in_window is Some <==> s.seg.last_above_in_window is Some
    &&& s.seg.first_above_in_window matches Some(n) ==> begin <= n
        <= s.seg.last_above_in_window->0 < to
    &&& s.seg.active matches Some(b) ==> b.open_ns <= b.last_above_ns <= time(begin)
    &&& block_in_progress(s)
    &&& edges_timed(
        s.events,
        match s.seg.active {
            Some(b) => b.open_ns,
            None => time(begin),
        },
        cfg,
        time(to as u64),
    )
}

proof fn lemma_edge_added(
    events: Seq<SegEvent>,
    event: SegEvent,
    floor_ns: u64,
    top_ns: u64,
    cfg: SegmenterConfig,
    now_ns: u64,
)
    requires
        edges_timed(events, floor_ns, cfg, now_ns),
        floor_ns <= top_ns,
        edge_ns(event) matches Some(t) ==> floor_ns <= t <= top_ns,
        event matches SegEvent::Close { t_ns } ==> {
            &&& events.len() > 0 && events.last() is Open
            &&& t_ns >= events.last()->Open_t_ns + cfg.min_block_ms * NS_PER_MS
            &&& t_ns + cfg.hangover_ms * NS_PER_MS <= now_ns
        },
    ensures
        edges_timed(events.push(event), top_ns, cfg, now_ns),
{
    reveal(edges_timed);
    let all = events.push(event);
    assert forall|i: int, j: int| 0 <= i <= j < all.len() implies (edge_ns(
        #[trigger] all[i],
    ) matches Some(a) ==> (edge_ns(#[trigger] all[j]) matches Some(b) ==> a <= b)) by {
        if j < events.len() {
            assert(all[i] == events[i] && all[j] == events[j]);
        } else if i < events.len() {
            assert(all[i] == events[i]);
        }
    }
}

proof fn lemma_window_well_timed(
    taken: Segmentation,
    to: u64,
    level: WindowLevel,
    cfg: SegmenterConfig,
    time: spec_fn(u64) -> u64,
    gated: spec_fn(u64) -> bool,
)
    requires
        nondecreasing(time),
        well_timed(taken, to as int, cfg, time),
        taken.seg.window_start_sample < to,
    ensures
        well_timed(window_closed(taken, to, level, cfg, time, gated), to as int, cfg, time),
        taken.events.is_prefix_of(window_closed(taken, to, level, cfg, time, gated).events),
{
    reveal(well_timed);
    let (active, events) = judged(taken.seg, to, level, cfg, time, gated);
    let after = window_closed(taken, to, level, cfg, time, gated);
    let begin = taken.seg.window_start_sample;
    assert(time(begin) <= time(to));
    if let Some(n) = taken.seg.first_above_in_window {
        let m = taken.seg.last_above_in_window->0;
        assert(time(begin) <= time(n));
        assert(time(n) <= time(m));
        assert(time(m) <= time(to));
    }
    match taken.seg.active {
        None => {
            if events.len() == 1 {
                let open_ns = active->0.open_ns;
                lemma_edge_added(taken.events, events[0], time(begin), open_ns, cfg, time(to));
                assert(after.events =~= taken.events.push(events[0]));
            } else {
                lemma_edges_later(taken.events, time(begin), time(to), time(to), time(to), cfg);
                assert(after.events =~= taken.events);
            }
        },
        Some(b) => {
            if events.len() == 1 {
                lemma_edge_added(taken.events, events[0], b.open_ns, time(to), cfg, time(to));
                assert(after.events =~= taken.events.push(events[0]));
            } else {
                assert(after.events =~= taken.events);
            }
        },
    }
}

/// A well-timed segmentation stays so as the stream moves on, with one more
/// sample taken or with its window begun anew.
proof fn lemma_stream_moves_on(
    s: Segmentation,
    t: Segmentation,
    from: u64,
    to: u64,
    cfg: SegmenterConfig,
    time: spec_fn(u64) -> u64,
)
    requires
        nondecreasing(time),
        well_timed(s, from as int, cfg, time),
        from <= to,
        t.events == s.events,
        t.seg.active == s.seg.active,
        t.seg.window_start_sample == s.seg.window_start_sample || (t.seg.window_start_sample
            == from && t.seg.first_above_in_window is None && s.seg.first_above_in_window is None),
        t.seg.first_above_in_window == s.seg.first_above_in_window
            || s.seg.first_above_in_window is None && from < to && t.seg.first_above_in_window
            == Some(from) && t.seg.last_above_in_window == Some(from),
        t.seg.last_above_in_window == s.seg.last_above_in_window || from < to
            && t.seg.last_above_in_window == Some(from) && t.seg.first_above_in_window is Some,
    ensures
        well_timed(t, to as int, cfg, time),
        t.seg.window_start_sample <= from,
{
    reveal(well_timed);
    assert(time(s.seg.window_start_sample) <= time(t.seg.window_start_sample));
    assert(time(from) <= time(to));
    let (t_ns, later_t_ns) = match s.seg.active {
        Some(b) => (b.open_ns, b.open_ns),
        None => (time(s.seg.window_start_sample), time(t.seg.window_start_sample)),
    };
    lemma_edges_later(s.events, t_ns, time(from), later_t_ns, time(to), cfg);
}

proof fn lemma_well_timed(start: Segmentation, samples: Seq<Scalar32>, run: Run)
    requires
        nondecreasing(run.time),
        run.base_sample + samples.len() <= u64::MAX,
        well_timed(start, run.base_sample as int, run.cfg, run.time),
    ensures
        well_timed(
            segmented(start, samples, run),
            run.base_sample + samples.len(),
            run.cfg,
            run.time,
        ),
        start.events.is_prefix_of(segmented(start, samples, run).events),
    decreases samples.len(),
{
    if samples.len() > 0 {
        lemma_well_timed(start, samples.drop_last(), run);
        let before = segmented(start, samples.drop_last(), run);
        let idx = (run.base_sample + samples.len() - 1) as u64;
        let to = (idx + 1) as u64;
        let taken = Segmentation {
            seg: sample_taken(before.seg, samples.last(), idx, run.amp_threshold),
            ..before
        };
        lemma_stream_moves_on(before, taken, idx, to, run.cfg, run.time);
        if taken.seg.n_in_window >= taken.seg.window_samples {
            let level = run.levels[before.used as int];
            lemma_window_well_timed(taken, to, level, run.cfg, run.time, run.gated);
        }
    }
}

/// Over any number of calls on one stream, edges alternate and their times never
/// decrease; each closed block lasted at least the minimum and ends at least the
/// hangover before the time that the stream has reached; and each call only
/// adds edges.
pub proof fn law_edges_ascend_over_calls(
    base_sample: u64,
    calls: Seq<Call>,
    cfg: SegmenterConfig,
    time: spec_fn(u64) -> u64,
)
    requires
        nondecreasing(time),
        base_sample + samples_in(calls) <= u64::MAX,
    ensures
        ({
            let s = fed_all(base_sample, calls, cfg, time);
            &&& edges_alternate(s)
            &&& edges_ascend(s.events)
            &&& closes_wait(s.events, cfg, time((base_sample + samples_in(calls)) as u64))
            &&& calls.len() > 0 ==> fed_all(
                base_sample,
                calls.drop_last(),
                cfg,
                time,
            ).events.is_prefix_of(s.events)
        }),
{
    reveal(well_timed);
    reveal(edges_timed);
    lemma_fed_all_well_timed(base_sample, calls, cfg, time);
}

proof fn lemma_fed_all_well_timed(
    base_sample: u64,
    calls: Seq<Call>,
    cfg: SegmenterConfig,
    time: spec_fn(u64) -> u64,
)
    requires
        nondecreasing(time),
        base_sample + samples_in(calls) <= u64::MAX,
    ensures
        ({
            let s = fed_all(base_sample, calls, cfg, time);
            &&& well_timed(s, base_sample + samples_in(calls), cfg, time)
            &&& edges_alternate(s)
            &&& closed_blocks_last(s, cfg)
            &&& block_in_progress(s)
            &&& s.seg.window_samples == 0 ==> s.seg.first_above_in_window is None
            &&& calls.len() > 0 ==> fed_all(
                base_sample,
                calls.drop_last(),
                cfg,
                time,
            ).events.is_prefix_of(s.events)
        }),
    decreases calls.len(),
{
    if calls.len() > 0 {
        lemma_fed_all_well_timed(base_sample, calls.drop_last(), cfg, time);
        let before = fed_all(base_sample, calls.drop_last(), cfg, time);
        let at = (base_sample + samples_in(calls.drop_last())) as u64;
        let call = calls.last();
        let to = (at + call.samples.len()) as u64;
        if let Some(w) = call.window {
            let run = Run {
                base_sample: at,
                amp_threshold: call.amp_threshold,
                levels: call.levels,
                cfg,
                time,
                gated: call.gated,
            };
            let start = Segmentation { seg: sized(before.seg, w, at), events: before.events, used: 0 };
            lemma_stream_moves_on(before, start, at, at, cfg, time);
            lemma_well_timed(start, call.samples, run);
            lemma_width_stays(start, call.samples, run);
            lemma_edges_form_blocks(start, call.samples, run);
        } else {
            lemma_stream_moves_on(before, before, at, to, cfg, time);
        }
    } else {
        reveal(well_timed);
        reveal(edges_timed);
    }
}

proof fn lemma_width_stays(start: Segmentation, samples: Seq<Scalar32>, run: Run)
    ensures
        segmented(start, samples, run).seg.window_samples == start.seg.window_samples,
    decreases samples.len(),
{
    if samples.len() > 0 {
        lemma_width_stays(start, samples.drop_last(), run);
    }
}

} // verus!
