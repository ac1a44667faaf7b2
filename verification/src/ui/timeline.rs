//! What the timeline shows.

use vstd::prelude::*;
use crate::analysis::rtvi::{delta_value, interruption_register_ms, nearest_delta};
use crate::analysis::turns::TurnRecord;
use crate::audio::{LANE_MIC, LANE_SYS};
use crate::millis::{span_ns, Millis, SignedMillis};
use crate::session::{Block, Phase, Shared};

verus! {

/// A stretch of the timeline, relative to the session's start.
#[derive(Clone, Copy, Debug, PartialEq, Eq, Structural)]
pub struct Span {
    pub start_ms: Millis,
    pub end_ms: Millis,
    /// Still in progress.
    pub is_open: bool,
}

/// The stretch of a block.
pub open spec fn block_span(sh: Shared, b: Block) -> Span {
    Span {
        start_ms: Millis { ns: span_ns(sh.session_start_ns, b.start_ns) },
        end_ms: Millis { ns: span_ns(sh.session_start_ns, b.end_ns) },
        is_open: false,
    }
}

/// Finished blocks, then the one in progress, which reaches to now.
pub open spec fn spans_of(sh: Shared, blocks: Seq<Block>, open: Option<u64>, now_ns: u64) -> Seq<
    Span,
> {
    let done = Seq::new(blocks.len(), |i: int| block_span(sh, blocks[i]));
    match open {
        Some(start) => done.push(
            Span {
                start_ms: Millis { ns: span_ns(sh.session_start_ns, start) },
                end_ms: Millis { ns: sh.duration_ns(now_ns) },
                is_open: true,
            },
        ),
        None => done,
    }
}

fn spans(sh: &Shared, blocks: &Vec<Block>, open: Option<u64>, now_ns: u64) -> (out: Vec<Span>)
    ensures
        out@ == spans_of(*sh, blocks@, open, now_ns),
{
    let mut out: Vec<Span> = Vec::new();
    let mut i: usize = 0;
    while i < blocks.len()
        invariant
            i <= blocks@.len(),
            out@ == Seq::new(i as nat, |k: int| block_span(*sh, blocks@[k])),
        decreases blocks@.len() - i,
    {
        let b = blocks[i];
        out.push(
            Span {
                start_ms: sh.rel_ms(b.start_ns),
                end_ms: sh.rel_ms(b.end_ns),
                is_open: false,
            },
        );
        assert(out@ =~= Seq::new((i + 1) as nat, |k: int| block_span(*sh, blocks@[k])));
        i = i + 1;
    }
    if let Some(start) = open {
        out.push(
            Span {
                start_ms: sh.rel_ms(start),
                end_ms: sh.session_duration_ms(now_ns),
                is_open: true,
            },
        );
    }
    out
}

/// The activity of a lane.
pub fn block_spans(sh: &Shared, lane: usize, now_ns: u64) -> (out: Vec<Span>)
    requires
        lane < 2,
    ensures
        out@ == spans_of(
            *sh,
            sh.lanes[lane as int].blocks@,
            sh.lanes[lane as int].open_start_ns,
            now_ns,
        ),
{
    spans(sh, &sh.lanes[lane].blocks, sh.lanes[lane].open_start_ns, now_ns)
}

/// Whether a lane is tinted: speech in full colour, other activity washed out.
/// Without a working classifier the lane is drawn plain.
pub fn tinted(sh: &Shared, lane: usize) -> (b: bool)
    ensures
        b == (lane == LANE_MIC && sh.cfg.vad_tint && sh.vad_error is None),
{
    lane == LANE_MIC && sh.cfg.vad_tint && sh.vad_error.is_none()
}

/// The classified speech of a lane, if the lane is tinted.
pub fn speech_spans(sh: &Shared, lane: usize, now_ns: u64) -> (out: Vec<Span>)
    requires
        lane < 2,
    ensures
        out@ == if lane == LANE_MIC && sh.cfg.vad_tint && sh.vad_error is None {
            spans_of(
                *sh,
                sh.lanes[lane as int].speech@,
                sh.lanes[lane as int].speech_open_ns,
                now_ns,
            )
        } else {
            Seq::empty()
        },
{
    if tinted(sh, lane) {
        spans(sh, &sh.lanes[lane].speech, sh.lanes[lane].speech_open_ns, now_ns)
    } else {
        Vec::new()
    }
}

/// The part of speech that lies within a block, if any does.
pub fn speech_in_block(speech: &Span, block: &Span) -> (part: Option<(Millis, Millis)>)
    ensures
        ({
            let lo = if speech.start_ms.ns > block.start_ms.ns {
                speech.start_ms
            } else {
                block.start_ms
            };
            let hi = if speech.end_ms.ns < block.end_ms.ns {
                speech.end_ms
            } else {
                block.end_ms
            };
            part == if lo.ns < hi.ns {
                Some((lo, hi))
            } else {
                None
            }
        }),
{
    let lo = if speech.start_ms.ns > block.start_ms.ns {
        speech.start_ms
    } else {
        block.start_ms
    };
    let hi = if speech.end_ms.ns < block.end_ms.ns {
        speech.end_ms
    } else {
        block.end_ms
    };
    if lo.ns < hi.ns {
        Some((lo, hi))
    } else {
        None
    }
}

/// A latency drawn between the lanes.
#[derive(Clone, Copy, Debug, PartialEq, Eq, Structural)]
pub struct LatencyGap {
    pub start_ms: Millis,
    pub end_ms: Millis,
    pub latency_ms: Millis,
}

/// The gaps of the turns that are paired and measured.
pub open spec fn gaps_of(sh: Shared, turns: Seq<TurnRecord>) -> Seq<LatencyGap>
    decreases turns.len(),
{
    if turns.len() == 0 {
        Seq::empty()
    } else {
        let before = gaps_of(sh, turns.drop_last());
        let t = turns.last();
        match (t.user_end_ns, t.latency_ms) {
            (Some(end), Some(latency_ms)) => before.push(
                LatencyGap {
                    start_ms: Millis { ns: span_ns(sh.session_start_ns, end) },
                    end_ms: Millis { ns: span_ns(sh.session_start_ns, t.bot_onset_ns) },
                    latency_ms,
                },
            ),
            _ => before,
        }
    }
}

/// The latencies to draw between the lanes.
pub fn latency_gaps(sh: &Shared) -> (gaps: Vec<LatencyGap>)
    ensures
        gaps@ == gaps_of(*sh, sh.turns@),
{
    let mut gaps: Vec<LatencyGap> = Vec::new();
    let mut i: usize = 0;
    while i < sh.turns.len()
        invariant
            i <= sh.turns@.len(),
            gaps@ == gaps_of(*sh, sh.turns@.take(i as int)),
        decreases sh.turns@.len() - i,
    {
        assert(sh.turns@.take(i + 1).drop_last() =~= sh.turns@.take(i as int));
        let t = sh.turns[i];
        if let (Some(end), Some(latency_ms)) = (t.user_end_ns, t.latency_ms) {
            gaps.push(
                LatencyGap {
                    start_ms: sh.rel_ms(end),
                    end_ms: sh.rel_ms(t.bot_onset_ns),
                    latency_ms,
                },
            );
        }
        i = i + 1;
    }
    assert(sh.turns@.take(sh.turns@.len() as int) =~= sh.turns@);
    gaps
}

/// Every gap that was measured is drawn: a turn with a latency and the end of
/// an utterance has its mark between the lanes.
pub proof fn law_every_latency_is_drawn(sh: Shared, turns: Seq<TurnRecord>, i: int)
    requires
        0 <= i < turns.len(),
        turns[i].user_end_ns is Some,
        turns[i].latency_ms is Some,
    ensures
        gaps_of(sh, turns).contains(
            LatencyGap {
                start_ms: Millis { ns: span_ns(sh.session_start_ns, turns[i].user_end_ns->0) },
                end_ms: Millis { ns: span_ns(sh.session_start_ns, turns[i].bot_onset_ns) },
                latency_ms: turns[i].latency_ms->0,
            },
        ),
    decreases turns.len(),
{
    let rest = turns.drop_last();
    let gap = LatencyGap {
        start_ms: Millis { ns: span_ns(sh.session_start_ns, turns[i].user_end_ns->0) },
        end_ms: Millis { ns: span_ns(sh.session_start_ns, turns[i].bot_onset_ns) },
        latency_ms: turns[i].latency_ms->0,
    };
    let before = gaps_of(sh, rest);
    let after = gaps_of(sh, turns);
    if i < rest.len() {
        assert(rest[i] == turns[i]);
        law_every_latency_is_drawn(sh, rest, i);
        let k = choose|k: int| 0 <= k < before.len() && before[k] == gap;
        assert(after[k] == gap);
    } else {
        assert(after.last() == gap);
    }
}

/// An interruption drawn between the lanes.
#[derive(Clone, Copy, Debug, PartialEq, Eq, Structural)]
pub struct InterruptionSpan {
    pub span: Span,
    pub stop_ms: Option<Millis>,
    /// When the framework registered it, relative to the mic onset.
    pub register_ms: Option<SignedMillis>,
}

/// An interruption to draw: from the barging mic audio to the moment system
/// audio stopped, or to now while the bot is still talking.
pub fn interruption_span(sh: &Shared, i: usize, now_ns: u64) -> (out: InterruptionSpan)
    requires
        i < sh.interruptions@.len(),
    ensures
        ({
            let r = sh.interruptions@[i as int];
            &&& out.span.start_ms.ns == span_ns(sh.session_start_ns, r.mic_open_ns)
            &&& out.span.end_ms.ns == match r.sys_stop_ns {
                Some(stop) => span_ns(sh.session_start_ns, stop),
                None => sh.duration_ns(now_ns),
            }
            &&& out.span.is_open == (r.sys_stop_ns is None)
            &&& out.stop_ms == r.stop_ms
            &&& delta_value(out.register_ms) == nearest_delta(
                sh.events@,
                "user_started_speaking"@,
                r.mic_open_ns,
                sh.cfg.rtvi_offset_ms,
            )
        }),
{
    let r = sh.interruptions[i];
    let end_ms = match r.sys_stop_ns {
        Some(stop) => sh.rel_ms(stop),
        None => sh.session_duration_ms(now_ns),
    };
    InterruptionSpan {
        span: Span { start_ms: sh.rel_ms(r.mic_open_ns), end_ms, is_open: r.sys_stop_ns.is_none() },
        stop_ms: r.stop_ms,
        register_ms: interruption_register_ms(&sh.events, r.mic_open_ns, sh.cfg.rtvi_offset_ms),
    }
}

/// An edge of an audio block.
#[derive(Clone, Copy, Debug, PartialEq, Eq, Structural)]
pub struct AudioEdge {
    pub t_ns: u64,
    pub lane: usize,
    pub is_end: bool,
}

/// The later of two edges, the first of those at the same time. Edges after
/// `t_ns` do not count.
pub open spec fn later_edge(best: Option<AudioEdge>, e: AudioEdge, t_ns: u64) -> Option<AudioEdge> {
    if e.t_ns <= t_ns && (best is None || e.t_ns > best->0.t_ns) {
        Some(e)
    } else {
        best
    }
}

/// The latest edge among a lane's blocks, and `best`.
pub open spec fn latest_of_blocks(
    best: Option<AudioEdge>,
    blocks: Seq<Block>,
    lane: usize,
    t_ns: u64,
) -> Option<AudioEdge>
    decreases blocks.len(),
{
    if blocks.len() == 0 {
        best
    } else {
        let before = latest_of_blocks(best, blocks.drop_last(), lane, t_ns);
        let b = blocks.last();
        later_edge(
            later_edge(before, AudioEdge { t_ns: b.start_ns, lane, is_end: false }, t_ns),
            AudioEdge { t_ns: b.end_ns, lane, is_end: true },
            t_ns,
        )
    }
}

/// The latest edge of a lane, and `best`.
pub open spec fn latest_of_lane(
    best: Option<AudioEdge>,
    sh: Shared,
    lane: usize,
    t_ns: u64,
) -> Option<AudioEdge> {
    let state = sh.lanes[lane as int];
    let closed = latest_of_blocks(best, state.blocks@, lane, t_ns);
    match state.open_start_ns {
        Some(open) => later_edge(closed, AudioEdge { t_ns: open, lane, is_end: false }, t_ns),
        None => closed,
    }
}

fn take_edge(best: &mut Option<AudioEdge>, e: AudioEdge, t_ns: u64)
    ensures
        *final(best) == later_edge(*old(best), e, t_ns),
{
    let later = match best {
        Some(b) => e.t_ns > b.t_ns,
        None => true,
    };
    if e.t_ns <= t_ns && later {
        *best = Some(e);
    }
}

fn take_lane(best: &mut Option<AudioEdge>, sh: &Shared, lane: usize, t_ns: u64)
    requires
        lane < 2,
    ensures
        *final(best) == latest_of_lane(*old(best), *sh, lane, t_ns),
{
    let mut i: usize = 0;
    while i < sh.lanes[lane].blocks.len()
        invariant
            lane < 2,
            i <= sh.lanes[lane as int].blocks@.len(),
            *best == latest_of_blocks(
                *old(best),
                sh.lanes[lane as int].blocks@.take(i as int),
                lane,
                t_ns,
            ),
        decreases sh.lanes[lane as int].blocks@.len() - i,
    {
        let b = sh.lanes[lane].blocks[i];
        assert(sh.lanes[lane as int].blocks@.take(i + 1).drop_last()
            =~= sh.lanes[lane as int].blocks@.take(i as int));
        take_edge(best, AudioEdge { t_ns: b.start_ns, lane, is_end: false }, t_ns);
        take_edge(best, AudioEdge { t_ns: b.end_ns, lane, is_end: true }, t_ns);
        i = i + 1;
    }
    assert(sh.lanes[lane as int].blocks@.take(sh.lanes[lane as int].blocks@.len() as int)
        =~= sh.lanes[lane as int].blocks@);
    if let Some(open) = sh.lanes[lane].open_start_ns {
        take_edge(best, AudioEdge { t_ns: open, lane, is_end: false }, t_ns);
    }
}

/// The latest block edge (start or end, either lane) at or before `t_ns`: what a
/// hovered event is measured against.
pub fn prev_audio_edge(sh: &Shared, t_ns: u64) -> (edge: Option<AudioEdge>)
    ensures
        edge == latest_of_lane(latest_of_lane(None, *sh, LANE_MIC, t_ns), *sh, LANE_SYS, t_ns),
{
    let mut best: Option<AudioEdge> = None;
    take_lane(&mut best, sh, LANE_MIC, t_ns);
    take_lane(&mut best, sh, LANE_SYS, t_ns);
    best
}

/// `e` is an edge of a block of its lane, finished or in progress.
pub open spec fn is_edge(sh: Shared, e: AudioEdge) -> bool {
    &&& e.lane < 2
    &&& edge_of_blocks(sh.lanes[e.lane as int].blocks@, e) || !e.is_end
        && sh.lanes[e.lane as int].open_start_ns == Some(e.t_ns)
}

/// `e` is an edge of one of the blocks.
pub open spec fn edge_of_blocks(blocks: Seq<Block>, e: AudioEdge) -> bool {
    exists|k: int|
        0 <= k < blocks.len() && e.t_ns == if e.is_end {
            (#[trigger] blocks[k]).end_ns
        } else {
            blocks[k].start_ns
        }
}

/// The edge found is an edge of its lane, not after the time asked for, and no
/// edge of either lane lies between the two. Nothing is found only where there
/// is no edge up to that time.
pub proof fn law_previous_edge_is_latest(sh: Shared, t_ns: u64)
    ensures
        ({
            let edge = latest_of_lane(
                latest_of_lane(None, sh, LANE_MIC, t_ns),
                sh,
                LANE_SYS,
                t_ns,
            );
            &&& edge matches Some(e) ==> is_edge(sh, e) && e.t_ns <= t_ns
            &&& forall|e: AudioEdge| #[trigger]
                is_edge(sh, e) && e.t_ns <= t_ns ==> edge is Some && edge->0.t_ns >= e.t_ns
        }),
{
    let mic = latest_of_lane(None, sh, LANE_MIC, t_ns);
    lemma_latest_of_blocks(None, sh.lanes[0].blocks@, LANE_MIC, t_ns);
    lemma_latest_of_blocks(mic, sh.lanes[1].blocks@, LANE_SYS, t_ns);
}

proof fn lemma_latest_of_blocks(
    best: Option<AudioEdge>,
    blocks: Seq<Block>,
    lane: usize,
    t_ns: u64,
)
    requires
        best matches Some(e) ==> e.t_ns <= t_ns,
    ensures
        ({
            let edge = latest_of_blocks(best, blocks, lane, t_ns);
            &&& edge matches Some(e) ==> e.t_ns <= t_ns && (edge == best || e.lane == lane
                && edge_of_blocks(blocks, e))
            &&& best is Some ==> edge is Some && edge->0.t_ns >= best->0.t_ns
            &&& forall|e: AudioEdge| #[trigger]
                edge_of_blocks(blocks, e) && e.t_ns <= t_ns ==> edge is Some && edge->0.t_ns
                    >= e.t_ns
        }),
    decreases blocks.len(),
{
    if blocks.len() > 0 {
        let rest = blocks.drop_last();
        lemma_latest_of_blocks(best, rest, lane, t_ns);
        let before = latest_of_blocks(best, rest, lane, t_ns);
        let edge = latest_of_blocks(best, blocks, lane, t_ns);
        let n = blocks.len() - 1;
        assert(blocks[n] == blocks.last());
        assert forall|e: AudioEdge| edge_of_blocks(rest, e) implies edge_of_blocks(blocks, e) by {
            let k = choose|k: int|
                0 <= k < rest.len() && e.t_ns == if e.is_end {
                    (#[trigger] rest[k]).end_ns
                } else {
                    rest[k].start_ns
                };
            assert(blocks[k] == rest[k]);
        }
        assert forall|e: AudioEdge| #[trigger]
            edge_of_blocks(blocks, e) && e.t_ns <= t_ns implies edge is Some && edge->0.t_ns
            >= e.t_ns by {
            let k = choose|k: int|
                0 <= k < blocks.len() && e.t_ns == if e.is_end {
                    (#[trigger] blocks[k]).end_ns
                } else {
                    blocks[k].start_ns
                };
            if k < n {
                assert(rest[k] == blocks[k]);
                assert(edge_of_blocks(rest, e));
            }
        }
    }
}

/// Whether to show the hint on how to begin.
pub fn shows_idle_hint(sh: &Shared) -> (b: bool)
    ensures
        b == (sh.phase == Phase::Idle && sh.turns@.len() == 0 && sh.lanes[0].blocks@.len() == 0),
{
    sh.phase == Phase::Idle && sh.turns.len() == 0 && sh.lanes[LANE_MIC].blocks.len() == 0
}

/// A lane shows its finished blocks, one for one and in order, each from its
/// start to its end, and then the one in progress, from its start to now.
pub proof fn law_blocks_are_drawn_in_order(
    sh: Shared,
    blocks: Seq<Block>,
    open: Option<u64>,
    now_ns: u64,
    i: int,
)
    requires
        0 <= i < blocks.len(),
    ensures
        ({
            let drawn = spans_of(sh, blocks, open, now_ns);
            &&& drawn[i].start_ms.ns == span_ns(sh.session_start_ns, blocks[i].start_ns)
            &&& drawn[i].end_ms.ns == span_ns(sh.session_start_ns, blocks[i].end_ns)
            &&& !drawn[i].is_open
        }),
{
}

/// The block in progress is drawn behind the finished ones; without one there is
/// nothing behind them.
pub proof fn law_block_in_progress_is_drawn(
    sh: Shared,
    blocks: Seq<Block>,
    open: Option<u64>,
    now_ns: u64,
)
    ensures
        ({
            let drawn = spans_of(sh, blocks, open, now_ns);
            &&& open is None ==> drawn.len() == blocks.len()
            &&& open is Some ==> {
                &&& drawn.len() == blocks.len() + 1
                &&& drawn.last().start_ms.ns == span_ns(sh.session_start_ns, open->0)
                &&& drawn.last().end_ms.ns == sh.duration_ns(now_ns)
                &&& drawn.last().is_open
            }
        }),
{
}

/// Latencies are drawn in the order of the turns: a further turn adds its gap,
/// from the end of the utterance to the onset of the response, if it is paired
/// and measured, and otherwise nothing.
pub proof fn law_latencies_are_drawn_in_order(sh: Shared, turns: Seq<TurnRecord>, t: TurnRecord)
    ensures
        gaps_of(sh, Seq::empty()) == Seq::<LatencyGap>::empty(),
        t.user_end_ns is None || t.latency_ms is None ==> gaps_of(sh, turns.push(t)) == gaps_of(
            sh,
            turns,
        ),
        t.user_end_ns is Some && t.latency_ms is Some ==> gaps_of(sh, turns.push(t)) == gaps_of(
            sh,
            turns,
        ).push(
            LatencyGap {
                start_ms: Millis { ns: span_ns(sh.session_start_ns, t.user_end_ns->0) },
                end_ms: Millis { ns: span_ns(sh.session_start_ns, t.bot_onset_ns) },
                latency_ms: t.latency_ms->0,
            },
        ),
{
    assert(turns.push(t).drop_last() =~= turns);
}

/// Of edges at the same time the first counts: a mic edge before a system edge,
/// an earlier block before a later one, its start before its end.
pub proof fn law_first_of_simultaneous_edges_counts(
    best: Option<AudioEdge>,
    blocks: Seq<Block>,
    b: Block,
    lane: usize,
    t_ns: u64,
)
    ensures
        ({
            let before = latest_of_blocks(best, blocks, lane, t_ns);
            let after = latest_of_blocks(best, blocks.push(b), lane, t_ns);
            let start = AudioEdge { t_ns: b.start_ns, lane, is_end: false };
            let end = AudioEdge { t_ns: b.end_ns, lane, is_end: true };
            let starts = b.start_ns <= t_ns && (before is None || b.start_ns > before->0.t_ns);
            let held = if starts {
                Some(start)
            } else {
                before
            };
            &&& b.end_ns <= t_ns && (held is None || b.end_ns > held->0.t_ns) ==> after == Some(end)
            &&& b.end_ns > t_ns || (held is Some && b.end_ns <= held->0.t_ns) ==> after == held
        }),
        latest_of_blocks(best, Seq::empty(), lane, t_ns) == best,
{
    assert(blocks.push(b).drop_last() =~= blocks);
}

/// The block in progress counts behind the finished ones.
pub proof fn law_block_in_progress_counts_last(
    best: Option<AudioEdge>,
    sh: Shared,
    lane: usize,
    t_ns: u64,
)
    requires
        lane < 2,
    ensures
        ({
            let state = sh.lanes[lane as int];
            let done = latest_of_blocks(best, state.blocks@, lane, t_ns);
            let all = latest_of_lane(best, sh, lane, t_ns);
            &&& state.open_start_ns is None ==> all == done
            &&& state.open_start_ns is Some && state.open_start_ns->0 <= t_ns && (done is None
                || state.open_start_ns->0 > done->0.t_ns) ==> all == Some(
                AudioEdge { t_ns: state.open_start_ns->0, lane, is_end: false },
            )
            &&& state.open_start_ns is Some && (state.open_start_ns->0 > t_ns || (done is Some
                && state.open_start_ns->0 <= done->0.t_ns)) ==> all == done
        }),
{
}

} // verus!
