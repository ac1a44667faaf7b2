//! Edges of both lanes, put in time order and applied to the session.

use vstd::prelude::*;
use crate::analysis::segmenter::SegEvent;
use crate::analysis::turns::{scene_after, Scene, TrackerState, TurnTracker};
use crate::analysis::vad::VadEvent;
use crate::session::{Block, LaneState, Shared};

verus! {

/// An edge that waits to be applied.
#[derive(Clone, Copy, Debug, PartialEq, Eq, Structural)]
pub struct TickEvent {
    pub lane: usize,
    pub t_ns: u64,
    pub event: SegEvent,
}

/// When an edge happened; a cancelled block carries no time and counts as now.
pub open spec fn event_time(event: SegEvent, now_ns: u64) -> u64 {
    match event {
        SegEvent::Open { t_ns } => t_ns,
        SegEvent::Close { t_ns } => t_ns,
        SegEvent::Cancel => now_ns,
    }
}

/// The edges of a lane, stamped.
pub open spec fn stamped(lane: usize, events: Seq<SegEvent>, now_ns: u64) -> Seq<TickEvent> {
    Seq::new(
        events.len(),
        |i: int| TickEvent { lane, t_ns: event_time(events[i], now_ns), event: events[i] },
    )
}

/// Stamps edges with their time and queues them.
pub fn queue_events(out: &mut Vec<TickEvent>, lane: usize, events: &Vec<SegEvent>, now_ns: u64)
    ensures
        final(out)@ == old(out)@ + stamped(lane, events@, now_ns),
{
    let mut i: usize = 0;
    assert(out@ =~= old(out)@ + stamped(lane, events@, now_ns).take(0));
    while i < events.len()
        invariant
            i <= events@.len(),
            out@ == old(out)@ + stamped(lane, events@, now_ns).take(i as int),
        decreases events@.len() - i,
    {
        let event = events[i];
        let t_ns: u64 = match event {
            SegEvent::Open { t_ns } => t_ns,
            SegEvent::Close { t_ns } => t_ns,
            SegEvent::Cancel => now_ns,
        };
        out.push(TickEvent { lane, t_ns, event });
        let ghost all = stamped(lane, events@, now_ns);
        assert(all.take(i + 1) =~= all.take(i as int).push(all[i as int]));
        assert(out@ =~= old(out)@ + all.take(i + 1));
        i = i + 1;
    }
    assert(stamped(lane, events@, now_ns).take(events@.len() as int) =~= stamped(
        lane,
        events@,
        now_ns,
    ));
}

/// `sorted` with `e` behind all that happened no later.
pub open spec fn put_in(sorted: Seq<TickEvent>, e: TickEvent) -> Seq<TickEvent>
    decreases sorted.len(),
{
    if sorted.len() == 0 || sorted.last().t_ns <= e.t_ns {
        sorted.push(e)
    } else {
        put_in(sorted.drop_last(), e).push(sorted.last())
    }
}

/// The events in time order; those of the same time keep their order.
pub open spec fn time_ordered(events: Seq<TickEvent>) -> Seq<TickEvent>
    decreases events.len(),
{
    if events.len() == 0 {
        events
    } else {
        put_in(time_ordered(events.drop_last()), events.last())
    }
}

proof fn lemma_put_in(sorted: Seq<TickEvent>, e: TickEvent, p: int)
    requires
        0 <= p <= sorted.len(),
        forall|k: int| p <= k < sorted.len() ==> (#[trigger] sorted[k]).t_ns > e.t_ns,
        p > 0 ==> sorted[p - 1].t_ns <= e.t_ns,
    ensures
        put_in(sorted, e) == sorted.insert(p, e),
    decreases sorted.len(),
{
    if p == sorted.len() {
        assert(sorted.insert(p, e) =~= sorted.push(e));
    } else {
        assert(sorted.last() == sorted[sorted.len() - 1]);
        lemma_put_in(sorted.drop_last(), e, p);
        assert(sorted.insert(p, e) =~= sorted.drop_last().insert(p, e).push(sorted.last()));
    }
}

/// Puts the events in time order.
pub fn sort_by_time(events: &Vec<TickEvent>) -> (sorted: Vec<TickEvent>)
    ensures
        sorted@ == time_ordered(events@),
{
    let mut sorted: Vec<TickEvent> = Vec::new();
    let mut i: usize = 0;
    while i < events.len()
        invariant
            i <= events@.len(),
            sorted@ == time_ordered(events@.take(i as int)),
        decreases events@.len() - i,
    {
        let e = events[i];
        let mut p: usize = sorted.len();
        while p > 0 && sorted[p - 1].t_ns > e.t_ns
            invariant
                p <= sorted@.len(),
                forall|k: int| p <= k < sorted@.len() ==> (#[trigger] sorted@[k]).t_ns > e.t_ns,
            ensures
                p <= sorted@.len(),
                forall|k: int| p <= k < sorted@.len() ==> (#[trigger] sorted@[k]).t_ns > e.t_ns,
                p > 0 ==> sorted@[p - 1].t_ns <= e.t_ns,
            decreases p,
        {
            p = p - 1;
        }
        proof {
            lemma_put_in(sorted@, e, p as int);
            assert(events@.take(i + 1).drop_last() =~= events@.take(i as int));
        }
        sorted.insert(p, e);
        i = i + 1;
    }
    assert(events@.take(events@.len() as int) =~= events@);
    sorted
}

/// Ordered by time.
pub open spec fn in_time_order(events: Seq<TickEvent>) -> bool {
    forall|i: int, j: int|
        0 <= i <= j < events.len() ==> (#[trigger] events[i]).t_ns <= (#[trigger] events[j]).t_ns
}

/// The events of one moment, in order.
pub open spec fn at_time(events: Seq<TickEvent>, t_ns: u64) -> Seq<TickEvent>
    decreases events.len(),
{
    if events.len() == 0 {
        events
    } else if events.last().t_ns == t_ns {
        at_time(events.drop_last(), t_ns).push(events.last())
    } else {
        at_time(events.drop_last(), t_ns)
    }
}

/// Ordering by time loses no event, adds none, and keeps those of one moment in
/// the order in which they came.
pub proof fn law_time_order_is_stable(events: Seq<TickEvent>, t_ns: u64)
    ensures
        in_time_order(time_ordered(events)),
        time_ordered(events).len() == events.len(),
        at_time(time_ordered(events), t_ns) == at_time(events, t_ns),
    decreases events.len(),
{
    if events.len() > 0 {
        law_time_order_is_stable(events.drop_last(), t_ns);
        lemma_put_in_stable(time_ordered(events.drop_last()), events.last(), t_ns);
    }
}

proof fn lemma_put_in_stable(sorted: Seq<TickEvent>, e: TickEvent, t_ns: u64)
    requires
        in_time_order(sorted),
    ensures
        in_time_order(put_in(sorted, e)),
        put_in(sorted, e).len() == sorted.len() + 1,
        sorted.len() > 0 && sorted.last().t_ns > e.t_ns ==> put_in(sorted, e).last()
            == sorted.last(),
        sorted.len() == 0 || sorted.last().t_ns <= e.t_ns ==> put_in(sorted, e).last() == e,
        at_time(put_in(sorted, e), t_ns) == if e.t_ns == t_ns {
            at_time(sorted, t_ns).push(e)
        } else {
            at_time(sorted, t_ns)
        },
    decreases sorted.len(),
{
    if sorted.len() == 0 || sorted.last().t_ns <= e.t_ns {
        assert(sorted.push(e).drop_last() =~= sorted);
    } else {
        let rest = sorted.drop_last();
        assert(in_time_order(rest)) by {
            assert forall|i: int, j: int| 0 <= i <= j < rest.len() implies (#[trigger] rest[i]).t_ns
                <= (#[trigger] rest[j]).t_ns by {
                assert(sorted[i].t_ns <= sorted[j].t_ns);
            }
        }
        lemma_put_in_stable(rest, e, t_ns);
        let part = put_in(rest, e);
        let whole = put_in(sorted, e);
        assert(whole.drop_last() =~= part);
        assert(whole.last() == sorted.last());
        let last = sorted.last();
        assert(part.last().t_ns <= last.t_ns) by {
            if rest.len() > 0 {
                assert(sorted[rest.len() - 1].t_ns <= sorted[sorted.len() - 1].t_ns);
            }
        }
        assert forall|i: int, j: int| 0 <= i <= j < whole.len() implies (#[trigger] whole[i]).t_ns
            <= (#[trigger] whole[j]).t_ns by {
            if j == whole.len() - 1 && i < j {
                assert(part[i].t_ns <= part[part.len() - 1].t_ns);
            } else if j < whole.len() - 1 {
                assert(part[i].t_ns <= part[j].t_ns);
            }
        }
    }
}

/// What the edges of both lanes have drawn up so far.
#[verifier::ext_equal]
pub struct Board {
    /// Start of each lane's block in progress.
    pub open: Seq<Option<u64>>,
    /// Each lane's finished blocks.
    pub blocks: Seq<Seq<Block>>,
    pub scene: Scene,
}

/// The board of a session.
pub open spec fn board_of(sh: Shared, tracker: TrackerState) -> Board {
    Board {
        open: seq![sh.lanes[0].open_start_ns, sh.lanes[1].open_start_ns],
        blocks: seq![sh.lanes[0].blocks@, sh.lanes[1].blocks@],
        scene: Scene { tracker, turns: sh.turns@, interruptions: sh.interruptions@ },
    }
}

/// The board after one edge.
pub open spec fn board_step(b: Board, e: TickEvent, merge_gap_ms: u64) -> Board {
    let lane = e.lane as int;
    Board {
        open: b.open.update(
            lane,
            match e.event {
                SegEvent::Open { t_ns } => Some(t_ns),
                _ => None,
            },
        ),
        blocks: match e.event {
            SegEvent::Close { t_ns } if b.open[lane] is Some => b.blocks.update(
                lane,
                b.blocks[lane].push(Block { start_ns: b.open[lane]->0, end_ns: t_ns }),
            ),
            _ => b.blocks,
        },
        scene: scene_after(b.scene, e.lane, e.event, merge_gap_ms),
    }
}

/// The board after a run of edges.
pub open spec fn board_after(b: Board, events: Seq<TickEvent>, merge_gap_ms: u64) -> Board
    decreases events.len(),
{
    if events.len() == 0 {
        b
    } else {
        board_step(board_after(b, events.drop_last(), merge_gap_ms), events.last(), merge_gap_ms)
    }
}

/// Activity that opens and closes is one block from edge to edge; the other
/// lane's blocks stay as they are.
pub proof fn law_open_then_close_is_a_block(
    b: Board,
    lane: usize,
    open_ns: u64,
    close_ns: u64,
    stamp: u64,
    merge_gap_ms: u64,
)
    requires
        lane < 2,
        b.open.len() == 2,
        b.blocks.len() == 2,
    ensures
        ({
            let opened = board_step(
                b,
                TickEvent { lane, t_ns: stamp, event: SegEvent::Open { t_ns: open_ns } },
                merge_gap_ms,
            );
            let closed = board_step(
                opened,
                TickEvent { lane, t_ns: stamp, event: SegEvent::Close { t_ns: close_ns } },
                merge_gap_ms,
            );
            &&& closed.open[lane as int] is None
            &&& closed.blocks[lane as int] == b.blocks[lane as int].push(
                Block { start_ns: open_ns, end_ns: close_ns },
            )
            &&& closed.open[1 - lane] == b.open[1 - lane]
            &&& closed.blocks[1 - lane] == b.blocks[1 - lane]
        }),
{
}

/// Activity that is cancelled leaves no block behind.
pub proof fn law_cancelled_activity_leaves_no_block(
    b: Board,
    lane: usize,
    open_ns: u64,
    stamp: u64,
    merge_gap_ms: u64,
)
    requires
        lane < 2,
        b.open.len() == 2,
        b.blocks.len() == 2,
    ensures
        ({
            let opened = board_step(
                b,
                TickEvent { lane, t_ns: stamp, event: SegEvent::Open { t_ns: open_ns } },
                merge_gap_ms,
            );
            let after = board_step(
                opened,
                TickEvent { lane, t_ns: stamp, event: SegEvent::Cancel },
                merge_gap_ms,
            );
            after.open[lane as int] is None && after.blocks == b.blocks
        }),
{
}

/// `after` differs from `before` at most in its block lists.
pub open spec fn same_but_blocks(after: LaneState, before: LaneState) -> bool {
    after == LaneState {
        blocks: after.blocks,
        open_start_ns: after.open_start_ns,
        ..before
    }
}

/// Applies edges of both lanes, in time order, to the block lists and the turn
/// tracker.
pub fn apply_events(sh: &mut Shared, tracker: &mut TurnTracker, events: &Vec<TickEvent>)
    requires
        forall|i: int| 0 <= i < events@.len() ==> (#[trigger] events@[i]).lane < 2,
    ensures
        board_of(*final(sh), final(tracker)@) == board_after(
            board_of(*old(sh), old(tracker)@),
            time_ordered(events@),
            old(sh).cfg.merge_gap_ms,
        ),
        *final(sh) == (Shared {
            lanes: final(sh).lanes,
            turns: final(sh).turns,
            interruptions: final(sh).interruptions,
            ..*old(sh)
        }),
        same_but_blocks(final(sh).lanes[0], old(sh).lanes[0]),
        same_but_blocks(final(sh).lanes[1], old(sh).lanes[1]),
{
    let sorted = sort_by_time(events);
    proof {
        lemma_lanes_stay(events@);
    }
    let merge_gap: u64 = sh.cfg.merge_gap_ms;
    let mut i: usize = 0;
    while i < sorted.len()
        invariant
            i <= sorted@.len(),
            merge_gap == old(sh).cfg.merge_gap_ms,
            forall|k: int| 0 <= k < sorted@.len() ==> (#[trigger] sorted@[k]).lane < 2,
            board_of(*sh, tracker@) == board_after(
                board_of(*old(sh), old(tracker)@),
                sorted@.take(i as int),
                merge_gap,
            ),
            *sh == (Shared {
                lanes: sh.lanes,
                turns: sh.turns,
                interruptions: sh.interruptions,
                ..*old(sh)
            }),
            same_but_blocks(sh.lanes[0], old(sh).lanes[0]),
            same_but_blocks(sh.lanes[1], old(sh).lanes[1]),
        decreases sorted@.len() - i,
    {
        let e = sorted[i];
        let ghost before = board_of(*sh, tracker@);
        assert(sorted@.take(i + 1).drop_last() =~= sorted@.take(i as int));
        draw(&mut sh.lanes[e.lane], e.event);
        tracker.on_event(e.lane, e.event, merge_gap, &mut sh.turns, &mut sh.interruptions);
        assert(board_of(*sh, tracker@) =~= board_step(before, e, merge_gap));
        i = i + 1;
    }
    assert(sorted@.take(sorted@.len() as int) =~= sorted@);
}

/// Draws one edge on a lane.
fn draw(lane: &mut LaneState, event: SegEvent)
    ensures
        same_but_blocks(*final(lane), *old(lane)),
        final(lane).open_start_ns == match event {
            SegEvent::Open { t_ns } => Some(t_ns),
            _ => None,
        },
        final(lane).blocks@ == match event {
            SegEvent::Close { t_ns } if old(lane).open_start_ns is Some => old(lane).blocks@.push(
                Block { start_ns: old(lane).open_start_ns->0, end_ns: t_ns },
            ),
            _ => old(lane).blocks@,
        },
{
    match event {
        SegEvent::Open { t_ns } => {
            lane.open_start_ns = Some(t_ns);
        },
        SegEvent::Close { t_ns } => {
            if let Some(start_ns) = lane.open_start_ns {
                lane.open_start_ns = None;
                lane.blocks.push(Block { start_ns, end_ns: t_ns });
            }
        },
        SegEvent::Cancel => {
            lane.open_start_ns = None;
        },
    }
}

proof fn lemma_lanes_stay(events: Seq<TickEvent>)
    requires
        forall|i: int| 0 <= i < events.len() ==> (#[trigger] events[i]).lane < 2,
    ensures
        forall|i: int|
            0 <= i < time_ordered(events).len() ==> (#[trigger] time_ordered(events)[i]).lane < 2,
    decreases events.len(),
{
    if events.len() > 0 {
        let rest = events.drop_last();
        assert forall|i: int| 0 <= i < rest.len() implies (#[trigger] rest[i]).lane < 2 by {
            assert(rest[i] == events[i]);
        }
        lemma_lanes_stay(rest);
        assert(events.last() == events[events.len() - 1]);
        lemma_put_in_lanes(time_ordered(rest), events.last());
    }
}

proof fn lemma_put_in_lanes(sorted: Seq<TickEvent>, e: TickEvent)
    requires
        e.lane < 2,
        forall|i: int| 0 <= i < sorted.len() ==> (#[trigger] sorted[i]).lane < 2,
    ensures
        forall|i: int|
            0 <= i < put_in(sorted, e).len() ==> (#[trigger] put_in(sorted, e)[i]).lane < 2,
    decreases sorted.len(),
{
    if sorted.len() > 0 && sorted.last().t_ns > e.t_ns {
        lemma_put_in_lanes(sorted.drop_last(), e);
        assert(sorted.last() == sorted[sorted.len() - 1]);
    }
}

/// The start of the speech region in progress and the finished regions, after a
/// run of speech edges.
pub open spec fn speech_after(
    open: Option<u64>,
    regions: Seq<Block>,
    events: Seq<VadEvent>,
) -> (Option<u64>, Seq<Block>)
    decreases events.len(),
{
    if events.len() == 0 {
        (open, regions)
    } else {
        let (open, regions) = speech_after(open, regions, events.drop_last());
        match events.last() {
            VadEvent::Open { t_ns } => (Some(t_ns), regions),
            VadEvent::Close { t_ns } => match open {
                Some(start_ns) => (None, regions.push(Block { start_ns, end_ns: t_ns })),
                None => (None, regions),
            },
            VadEvent::Cancel => (None, regions),
        }
    }
}

/// Applies speech edges to a lane's speech intervals, and to nothing else.
pub fn apply_speech_events(lane: &mut LaneState, events: &Vec<VadEvent>)
    ensures
        (final(lane).speech_open_ns, final(lane).speech@) == speech_after(
            old(lane).speech_open_ns,
            old(lane).speech@,
            events@,
        ),
        *final(lane) == (LaneState {
            speech: final(lane).speech,
            speech_open_ns: final(lane).speech_open_ns,
            ..*old(lane)
        }),
{
    let mut i: usize = 0;
    while i < events.len()
        invariant
            i <= events@.len(),
            (lane.speech_open_ns, lane.speech@) == speech_after(
                old(lane).speech_open_ns,
                old(lane).speech@,
                events@.take(i as int),
            ),
            *lane == (LaneState {
                speech: lane.speech,
                speech_open_ns: lane.speech_open_ns,
                ..*old(lane)
            }),
        decreases events@.len() - i,
    {
        assert(events@.take(i + 1).drop_last() =~= events@.take(i as int));
        match events[i] {
            VadEvent::Open { t_ns } => {
                lane.speech_open_ns = Some(t_ns);
            },
            VadEvent::Close { t_ns } => {
                if let Some(start_ns) = lane.speech_open_ns {
                    lane.speech_open_ns = None;
                    lane.speech.push(Block { start_ns, end_ns: t_ns });
                }
            },
            VadEvent::Cancel => {
                lane.speech_open_ns = None;
            },
        }
        i = i + 1;
    }
    assert(events@.take(events@.len() as int) =~= events@);
}

/// Edges are queued one for one, in order, each with its lane and with its own
/// time; a cancelled block counts as now.
pub proof fn law_edges_are_stamped_with_their_time(
    lane: usize,
    events: Seq<SegEvent>,
    now_ns: u64,
    i: int,
)
    requires
        0 <= i < events.len(),
    ensures
        ({
            let all = stamped(lane, events, now_ns);
            &&& all.len() == events.len()
            &&& all[i].lane == lane
            &&& all[i].event == events[i]
            &&& events[i] is Open ==> all[i].t_ns == events[i]->Open_t_ns
            &&& events[i] is Close ==> all[i].t_ns == events[i]->Close_t_ns
            &&& events[i] is Cancel ==> all[i].t_ns == now_ns
        }),
{
}

/// Edges applied in two runs give what they give in one; none gives nothing.
pub proof fn law_board_runs_join(
    b: Board,
    first: Seq<TickEvent>,
    second: Seq<TickEvent>,
    merge_gap_ms: u64,
)
    ensures
        board_after(b, first + second, merge_gap_ms) == board_after(
            board_after(b, first, merge_gap_ms),
            second,
            merge_gap_ms,
        ),
        board_after(b, Seq::empty(), merge_gap_ms) == b,
    decreases second.len(),
{
    if second.len() == 0 {
        assert(first + second =~= first);
    } else {
        law_board_runs_join(b, first, second.drop_last(), merge_gap_ms);
        assert((first + second).drop_last() =~= first + second.drop_last());
        assert((first + second).last() == second.last());
    }
}

/// Every edge reaches the turn tracker, under its own lane, and is drawn on its
/// own lane: an open begins a block, any other edge ends it, and only a close
/// with a block in progress adds one to the finished blocks.
pub proof fn law_every_edge_is_applied(b: Board, e: TickEvent, merge_gap_ms: u64)
    requires
        e.lane < 2,
        b.open.len() == 2,
        b.blocks.len() == 2,
    ensures
        ({
            let after = board_after(b, seq![e], merge_gap_ms);
            let lane = e.lane as int;
            &&& after.scene == scene_after(b.scene, e.lane, e.event, merge_gap_ms)
            &&& after.open.len() == 2 && after.blocks.len() == 2
            &&& after.open[1 - lane] == b.open[1 - lane]
            &&& after.blocks[1 - lane] == b.blocks[1 - lane]
            &&& e.event is Open ==> after.open[lane] == Some(e.event->Open_t_ns)
                && after.blocks[lane] == b.blocks[lane]
            &&& e.event is Cancel ==> after.open[lane] is None && after.blocks[lane]
                == b.blocks[lane]
            &&& e.event is Close && b.open[lane] is None ==> after.open[lane] is None
                && after.blocks[lane] == b.blocks[lane]
            &&& e.event is Close && b.open[lane] is Some ==> after.open[lane] is None
                && after.blocks[lane] == b.blocks[lane].push(
                Block { start_ns: b.open[lane]->0, end_ns: e.event->Close_t_ns },
            )
        }),
{
    reveal_with_fuel(board_after, 2);
    assert(seq![e].drop_last() =~= Seq::empty());
}

/// Speech edges applied in two runs give what they give in one.
pub proof fn law_speech_runs_join(
    open: Option<u64>,
    regions: Seq<Block>,
    first: Seq<VadEvent>,
    second: Seq<VadEvent>,
)
    ensures
        ({
            let (mid_open, mid) = speech_after(open, regions, first);
            speech_after(open, regions, first + second) == speech_after(mid_open, mid, second)
        }),
        speech_after(open, regions, Seq::empty()) == (open, regions),
    decreases second.len(),
{
    if second.len() == 0 {
        assert(first + second =~= first);
    } else {
        law_speech_runs_join(open, regions, first, second.drop_last());
        assert((first + second).drop_last() =~= first + second.drop_last());
        assert((first + second).last() == second.last());
    }
}

/// An open begins a speech region, a close finishes the one in progress from edge
/// to edge, and a cancelled one leaves nothing.
pub proof fn law_each_speech_edge(open: Option<u64>, regions: Seq<Block>, e: VadEvent)
    ensures
        ({
            let (after, shown) = speech_after(open, regions, seq![e]);
            &&& e is Open ==> after == Some(e->Open_t_ns) && shown == regions
            &&& e is Cancel ==> after is None && shown == regions
            &&& e is Close ==> after is None
            &&& e is Close && open is None ==> shown == regions
            &&& e is Close && open is Some ==> shown == regions.push(
                Block { start_ns: open->0, end_ns: e->Close_t_ns },
            )
        }),
{
    reveal_with_fuel(speech_after, 2);
    assert(seq![e].drop_last() =~= Seq::empty());
    assert(seq![e].last() == e);
}

/// Edges change the blocks of a lane, finished and in progress, and nothing else
/// that it shows.
pub proof fn law_edges_change_only_blocks(after: LaneState, before: LaneState)
    requires
        same_but_blocks(after, before),
    ensures
        after.bins == before.bins,
        after.speech == before.speech,
        after.speech_open_ns == before.speech_open_ns,
        after.level_db == before.level_db,
        after.effective_threshold_db == before.effective_threshold_db,
        after.dropped == before.dropped,
        after.last_sample_ns == before.last_sample_ns,
{
}

} // verus!
