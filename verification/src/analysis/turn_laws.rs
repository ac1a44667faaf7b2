//! What every sequence of activity edges keeps true of the turn records, and
//! what later edges undo.

use vstd::prelude::*;
use crate::analysis::segmenter::SegEvent;
use crate::analysis::turns::{
    audible, blip_retracted, finished_block, fresh_tracker, group_started, latest_utterance,
    overlap_marked, playing, resolved, response_gap, retracted, scene_after, sys_cancelled,
    sys_closed, BotGroup, InterruptionRecord, OpenUser, Scene, TrackerState, TurnRecord, UserBlock,
};
use crate::audio::{LANE_MIC, LANE_SYS};
use crate::millis::Millis;

verus! {

/// A turn at position `i`: its latency, where known, is exactly the gap from
/// the end of its utterance to its onset; an utterance never ends after the
/// onset; and it is provisional exactly until a block of the response closed.
pub open spec fn turn_coherent(t: TurnRecord, i: int) -> bool {
    &&& t.index == i
    &&& t.user_start_ns is Some <==> t.user_end_ns is Some
    &&& t.user_end_ns matches Some(end) ==> end <= t.bot_onset_ns
    &&& t.latency_ms matches Some(l) ==> t.user_end_ns is Some && l.ns == t.bot_onset_ns
        - t.user_end_ns->0
    &&& t.flags.no_user_speech ==> t.user_end_ns is None
    &&& t.provisional <==> t.bot_group_end_ns is None
}

/// An interruption either is still in flight or ended after it started, and
/// then its length is exactly the time between.
pub open spec fn interruption_coherent(r: InterruptionRecord) -> bool {
    match r.sys_stop_ns {
        Some(stop) => stop > r.mic_open_ns && r.stop_ms == Some(
            Millis { ns: (stop - r.mic_open_ns) as u64 },
        ),
        None => r.stop_ms is None,
    }
}

/// When the response before turn `i` ended.
pub open spec fn end_before(turns: Seq<TurnRecord>, i: int) -> Option<u64> {
    if i > 0 {
        turns[i - 1].bot_group_end_ns
    } else {
        None
    }
}

/// The user's response time of a turn with an utterance is the gap from the end
/// of the previous response to the start of that utterance.
pub open spec fn response_coherent(t: TurnRecord, prev_end_ns: Option<u64>) -> bool {
    t.user_start_ns matches Some(start) ==> t.user_response_ms == response_gap(prev_end_ns, start)
}

/// `t` is the turn of response `g`. Its pairing is open only while a mic block
/// is.
pub open spec fn group_coherent(g: BotGroup, t: TurnRecord, user_open: bool) -> bool {
    &&& t.bot_onset_ns == g.onset_ns
    &&& t.bot_group_end_ns == g.last_end_ns
    &&& g.last_end_ns is None <==> g.closed_blocks == 0
    &&& g.closed_blocks == 0 ==> playing(g)
    &&& g.fallback_user matches Some(b) ==> b.end_ns <= g.onset_ns
    &&& g.awaiting_user ==> {
        &&& user_open
        &&& t.latency_ms is None
        &&& t.user_end_ns is Some <==> g.fallback_user is Some
    }
}

/// The current response is the last turn's; without one there is no turn yet.
/// A displaced response is kept only while the current one may be a blip, and
/// is the last turn's but one.
pub open spec fn groups_coherent(s: Scene) -> bool {
    let n = s.turns.len() as int;
    let talking = s.tracker.user_open is Some;
    &&& s.tracker.group is None ==> n == 0
    &&& s.tracker.group matches Some(g) ==> {
        &&& g.turn_index + 1 == n
        &&& g.prev_end_ns == end_before(s.turns, n - 1)
        &&& group_coherent(g, s.turns[n - 1], talking)
    }
    &&& s.tracker.displaced matches Some(d) ==> {
        &&& s.tracker.group is Some && s.tracker.group->0.closed_blocks == 0
        &&& d.group.turn_index + 2 == n
        &&& d.group.prev_end_ns == end_before(s.turns, n - 2)
        &&& !playing(d.group)
        &&& d.turn is Some
        &&& turn_coherent(d.turn->0, n - 2)
        &&& response_coherent(d.turn->0, end_before(s.turns, n - 2))
        &&& group_coherent(d.group, d.turn->0, talking)
    }
    &&& s.tracker.displaced is None && s.tracker.group is Some
        && s.tracker.group->0.closed_blocks == 0 ==> n == 1
}

/// What holds of every scene that a tracker builds up from nothing.
pub open spec fn coherent(s: Scene) -> bool {
    &&& forall|i: int| 0 <= i < s.turns.len() ==> turn_coherent(#[trigger] s.turns[i], i)
    &&& forall|i: int|
        0 <= i < s.turns.len() ==> response_coherent(s.turns[i], #[trigger] end_before(s.turns, i))
    &&& groups_coherent(s)
    &&& forall|i: int|
        0 <= i < s.interruptions.len() ==> {
            &&& interruption_coherent(#[trigger] s.interruptions[i])
            &&& s.interruptions[i].sys_stop_ns is None ==> s.tracker.pending_interruption is Some
                && s.tracker.pending_interruption->0 == i
        }
    &&& s.tracker.pending_interruption matches Some(idx) ==> {
        &&& idx + 1 == s.interruptions.len()
        &&& s.interruptions[idx as int].sys_stop_ns is None
        &&& audible(s.tracker)
    }
    &&& s.tracker.user_open matches Some(open) ==> (open.interruption_idx matches Some(idx) ==> idx
        + 1 >= s.interruptions.len())
}

/// Nothing tracked yet.
pub open spec fn empty_scene() -> Scene {
    Scene { tracker: fresh_tracker(), turns: Seq::empty(), interruptions: Seq::empty() }
}

/// The scene after a sequence of edges, each with its lane.
pub open spec fn scene_after_all(
    s: Scene,
    events: Seq<(usize, SegEvent)>,
    merge_gap_ms: u64,
) -> Scene
    decreases events.len(),
{
    if events.len() == 0 {
        s
    } else {
        scene_after(
            scene_after_all(s, events.drop_last(), merge_gap_ms),
            events.last().0,
            events.last().1,
            merge_gap_ms,
        )
    }
}

proof fn lemma_latest_utterance_bounds(blocks: Seq<UserBlock>, onset_ns: u64, after_ns: u64)
    ensures
        latest_utterance(blocks, onset_ns, after_ns) matches Some(b) ==> after_ns < b.end_ns
            <= onset_ns && blocks.contains(b),
    decreases blocks.len(),
{
    if blocks.len() > 0 {
        lemma_latest_utterance_bounds(blocks.drop_last(), onset_ns, after_ns);
        if latest_utterance(blocks, onset_ns, after_ns) is Some {
            let b = latest_utterance(blocks, onset_ns, after_ns)->0;
            if b == blocks.last() {
                assert(blocks[blocks.len() - 1] == b);
            } else {
                let k = choose|k: int|
                    0 <= k < blocks.drop_last().len() && blocks.drop_last()[k] == b;
                assert(blocks[k] == b);
            }
        }
    }
}

/// The turns and responses of a scene are coherent.
spec fn turns_coherent(s: Scene) -> bool {
    &&& forall|i: int| 0 <= i < s.turns.len() ==> turn_coherent(#[trigger] s.turns[i], i)
    &&& forall|i: int|
        0 <= i < s.turns.len() ==> response_coherent(s.turns[i], #[trigger] end_before(s.turns, i))
    &&& groups_coherent(s)
}

/// Changing a turn leaves its neighbours coherent if it ends when it did.
proof fn lemma_turn_replaced(turns: Seq<TurnRecord>, k: int, t: TurnRecord)
    requires
        0 <= k < turns.len(),
        forall|i: int| 0 <= i < turns.len() ==> turn_coherent(#[trigger] turns[i], i),
        forall|i: int|
            0 <= i < turns.len() ==> response_coherent(turns[i], #[trigger] end_before(turns, i)),
        turn_coherent(t, k),
        response_coherent(t, end_before(turns, k)),
        t.bot_group_end_ns == turns[k].bot_group_end_ns || k + 1 == turns.len(),
    ensures
        forall|i: int|
            0 <= i < turns.len() ==> turn_coherent(#[trigger] turns.update(k, t)[i], i),
        forall|i: int|
            0 <= i < turns.len() ==> response_coherent(
                turns.update(k, t)[i],
                #[trigger] end_before(turns.update(k, t), i),
            ),
        forall|i: int|
            0 <= i < turns.len() ==> #[trigger] end_before(turns.update(k, t), i) == end_before(
                turns,
                i,
            ),
{
    assert forall|i: int| 0 <= i < turns.len() implies response_coherent(
        turns.update(k, t)[i],
        #[trigger] end_before(turns.update(k, t), i),
    ) && end_before(turns.update(k, t), i) == end_before(turns, i) by {
        assert(response_coherent(turns[i], end_before(turns, i)));
    }
}

proof fn lemma_resolved_coherent(s: Scene, t: Scene, closed: Option<UserBlock>)
    requires
        coherent(s),
        t.turns == s.turns,
        t.tracker.group == s.tracker.group,
        t.tracker.displaced == s.tracker.displaced,
        t.tracker.user_open is None,
    ensures
        turns_coherent(resolved(t, closed)),
        resolved(t, closed).turns.len() == s.turns.len(),
        resolved(t, closed).tracker.user_open is None,
{
    let r = resolved(t, closed);
    if s.tracker.group is Some && s.tracker.group->0.awaiting_user {
        let k = s.turns.len() - 1;
        assert(turn_coherent(s.turns[k], k));
        assert(response_coherent(s.turns[k], end_before(s.turns, k)));
        lemma_turn_replaced(s.turns, k, r.turns[k]);
        assert(end_before(r.turns, k) == end_before(s.turns, k));
        assert(end_before(r.turns, k - 1) == end_before(s.turns, k - 1));
    }
}

proof fn lemma_mic_coherent(s: Scene, event: SegEvent)
    requires
        coherent(s),
        s.interruptions.len() < usize::MAX,
    ensures
        coherent(scene_after(s, LANE_MIC, event, 0)),
{
    match event {
        SegEvent::Open { t_ns } => {},
        SegEvent::Close { t_ns } => {
            if s.tracker.user_open is Some {
                let open = s.tracker.user_open->0;
                let block = finished_block(s, open, t_ns);
                let finished = Scene {
                    tracker: TrackerState {
                        user_open: None,
                        user_blocks: s.tracker.user_blocks.push(block),
                        ..s.tracker
                    },
                    ..s
                };
                let t = blip_retracted(finished, open, t_ns);
                lemma_resolved_coherent(s, t, Some(block));
                let r = resolved(t, Some(block));
                let o = overlap_marked(r, open, t_ns);
                assert(o.interruptions == t.interruptions);
                let k = r.turns.len() - 1;
                if o.turns != r.turns {
                    assert(turn_coherent(r.turns[k], k));
                    assert(response_coherent(r.turns[k], end_before(r.turns, k)));
                    lemma_turn_replaced(r.turns, k, o.turns[k]);
                    assert(end_before(o.turns, k) == end_before(r.turns, k));
                    assert(end_before(o.turns, k - 1) == end_before(r.turns, k - 1));
                }
                assert(turns_coherent(o));
            }
        },
        SegEvent::Cancel => {
            if s.tracker.user_open is Some {
                let open = s.tracker.user_open->0;
                let forgotten = Scene {
                    tracker: TrackerState {
                        user_open: None,
                        pending_interruption: if open.interruption_idx is Some
                            && s.tracker.pending_interruption == open.interruption_idx {
                            None
                        } else {
                            s.tracker.pending_interruption
                        },
                        ..s.tracker
                    },
                    interruptions: match open.interruption_idx {
                        Some(idx) => retracted(s.interruptions, idx),
                        None => s.interruptions,
                    },
                    ..s
                };
                lemma_resolved_coherent(s, forgotten, None);
            }
        },
    }
}

proof fn lemma_group_started_coherent(s: Scene, t_ns: u64)
    requires
        coherent(s),
        s.turns.len() < usize::MAX,
        !audible(s.tracker),
    ensures
        turns_coherent(group_started(s, t_ns)),
{
    let after: u64 = match s.tracker.group {
        Some(g) => g.onset_ns,
        None => 0,
    };
    lemma_latest_utterance_bounds(s.tracker.user_blocks, t_ns, after);
    let r = group_started(s, t_ns);
    let n = s.turns.len() as int;
    let marked = r.turns.drop_last();
    if s.tracker.group is Some {
        assert(turn_coherent(s.turns[n - 1], n - 1));
        assert(response_coherent(s.turns[n - 1], end_before(s.turns, n - 1)));
        if s.tracker.group->0.awaiting_user {
            assert(marked =~= s.turns.update(n - 1, marked[n - 1]));
            lemma_turn_replaced(s.turns, n - 1, marked[n - 1]);
            assert(end_before(marked, n - 1) == end_before(s.turns, n - 1));
        } else {
            assert(marked =~= s.turns);
        }
    }
    assert forall|i: int| 0 <= i < r.turns.len() implies turn_coherent(#[trigger] r.turns[i], i) by {
        if i < n {
            assert(r.turns[i] == marked[i]);
        }
    }
    assert forall|i: int| 0 <= i < r.turns.len() implies response_coherent(
        r.turns[i],
        #[trigger] end_before(r.turns, i),
    ) by {
        if i < n {
            assert(r.turns[i] == marked[i]);
            assert(end_before(r.turns, i) == end_before(marked, i));
        }
    }
    assert(end_before(r.turns, n - 1) == end_before(s.turns, n - 1));
}

proof fn lemma_sys_closed_coherent(s: Scene, t_ns: u64)
    requires
        coherent(s),
    ensures
        turns_coherent(sys_closed(s, t_ns)),
{
    let r = sys_closed(s, t_ns);
    if s.tracker.group is Some {
        let k = s.turns.len() - 1;
        assert(turn_coherent(s.turns[k], k));
        assert(response_coherent(s.turns[k], end_before(s.turns, k)));
        lemma_turn_replaced(s.turns, k, r.turns[k]);
        assert(end_before(r.turns, k) == end_before(s.turns, k));
    }
}

proof fn lemma_sys_cancelled_coherent(s: Scene)
    requires
        coherent(s),
    ensures
        turns_coherent(sys_cancelled(s)),
{
    let r = sys_cancelled(s);
    let n = s.turns.len() as int;
    if s.tracker.group is Some && s.tracker.group->0.closed_blocks == 0 {
        let rest = s.turns.drop_last();
        assert(turn_coherent(s.turns[n - 1], n - 1));
        assert forall|i: int| 0 <= i < rest.len() implies turn_coherent(#[trigger] rest[i], i) by {
            assert(turn_coherent(s.turns[i], i));
        }
        assert forall|i: int| 0 <= i < rest.len() implies response_coherent(
            rest[i],
            #[trigger] end_before(rest, i),
        ) && end_before(rest, i) == end_before(s.turns, i) by {
            assert(response_coherent(s.turns[i], end_before(s.turns, i)));
        }
        if s.tracker.displaced is Some {
            assert(end_before(rest, n - 2) == end_before(s.turns, n - 2));
            lemma_turn_replaced(rest, n - 2, r.turns[n - 2]);
            assert(end_before(r.turns, n - 2) == end_before(rest, n - 2));
        }
    }
}

proof fn lemma_sys_coherent(s: Scene, event: SegEvent, merge_gap_ms: u64)
    requires
        coherent(s),
        s.turns.len() < usize::MAX,
    ensures
        coherent(scene_after(s, LANE_SYS, event, merge_gap_ms)),
{
    match event {
        SegEvent::Open { t_ns } => {
            if !audible(s.tracker) {
                lemma_group_started_coherent(s, t_ns);
            }
        },
        SegEvent::Close { t_ns } => {
            lemma_sys_closed_coherent(s, t_ns);
        },
        SegEvent::Cancel => {
            lemma_sys_cancelled_coherent(s);
        },
    }
}

/// Every edge on every lane keeps a scene coherent. The bounds on the numbers
/// of records are those of the machine's indices.
pub proof fn law_event_keeps_coherence(s: Scene, lane: usize, event: SegEvent, merge_gap_ms: u64)
    requires
        coherent(s),
        s.turns.len() < usize::MAX,
        s.interruptions.len() < usize::MAX,
    ensures
        coherent(scene_after(s, lane, event, merge_gap_ms)),
{
    if lane == LANE_MIC {
        lemma_mic_coherent(s, event);
    } else if lane == LANE_SYS {
        lemma_sys_coherent(s, event, merge_gap_ms);
    }
}

/// Whatever the two lanes do, the records built up from nothing are coherent,
/// and there are no more of them than edges.
pub proof fn law_records_always_coherent(events: Seq<(usize, SegEvent)>, merge_gap_ms: u64)
    requires
        events.len() < usize::MAX,
    ensures
        coherent(scene_after_all(empty_scene(), events, merge_gap_ms)),
        scene_after_all(empty_scene(), events, merge_gap_ms).turns.len() <= events.len(),
        scene_after_all(empty_scene(), events, merge_gap_ms).interruptions.len() <= events.len(),
    decreases events.len(),
{
    if events.len() > 0 {
        law_records_always_coherent(events.drop_last(), merge_gap_ms);
        law_event_keeps_coherence(
            scene_after_all(empty_scene(), events.drop_last(), merge_gap_ms),
            events.last().0,
            events.last().1,
            merge_gap_ms,
        );
    }
}

/// At most one interruption is in flight, it is the last one, and none is while
/// the bot is silent.
pub proof fn law_one_interruption_in_flight(s: Scene, i: int, j: int)
    requires
        coherent(s),
        0 <= i < s.interruptions.len(),
        0 <= j < s.interruptions.len(),
        s.interruptions[i].sys_stop_ns is None,
        s.interruptions[j].sys_stop_ns is None,
    ensures
        i == j,
        i + 1 == s.interruptions.len(),
        audible(s.tracker),
{
}

/// Once system audio stops, every interruption has its measured length.
pub proof fn law_bot_stop_settles_interruptions(s: Scene, t_ns: u64, merge_gap_ms: u64, i: int)
    requires
        coherent(s),
        0 <= i < scene_after(s, LANE_SYS, SegEvent::Close { t_ns }, merge_gap_ms).interruptions.len(),
    ensures
        ({
            let r = scene_after(
                s,
                LANE_SYS,
                SegEvent::Close { t_ns },
                merge_gap_ms,
            ).interruptions[i];
            r.sys_stop_ns is Some && r.sys_stop_ns->0 > r.mic_open_ns && r.stop_ms == Some(
                Millis { ns: (r.sys_stop_ns->0 - r.mic_open_ns) as u64 },
            )
        }),
{
    assert(interruption_coherent(s.interruptions[i]));
}

/// Once system audio proves to be a blip, too, no interruption is in flight.
pub proof fn law_bot_blip_settles_interruptions(s: Scene, merge_gap_ms: u64, i: int)
    requires
        coherent(s),
        0 <= i < scene_after(s, LANE_SYS, SegEvent::Cancel, merge_gap_ms).interruptions.len(),
    ensures
        scene_after(s, LANE_SYS, SegEvent::Cancel, merge_gap_ms).interruptions[i]
            == s.interruptions[i],
        s.interruptions[i].sys_stop_ns is Some,
{
    assert(interruption_coherent(s.interruptions[i]));
}

/// When the response was last heard: its last end, or its onset while no block of
/// it has ended.
pub open spec fn last_sound(g: BotGroup) -> u64 {
    match g.last_end_ns {
        Some(end) => end,
        None => g.onset_ns,
    }
}

/// A mic blip that is cancelled leaves no trace: everything is as it was.
pub proof fn law_cancelled_mic_blip_leaves_no_trace(s: Scene, t_ns: u64, merge_gap_ms: u64)
    requires
        coherent(s),
        s.interruptions.len() < usize::MAX,
        s.tracker.user_open is None,
    ensures
        ({
            let opened = scene_after(s, LANE_MIC, SegEvent::Open { t_ns }, merge_gap_ms);
            scene_after(opened, LANE_MIC, SegEvent::Cancel, merge_gap_ms) == s
        }),
{
    let opened = scene_after(s, LANE_MIC, SegEvent::Open { t_ns }, merge_gap_ms);
    let after = scene_after(opened, LANE_MIC, SegEvent::Cancel, merge_gap_ms);
    assert(after.interruptions =~= s.interruptions);
}

/// A mic blip that is open when a response starts and cancelled afterwards
/// makes no difference to that response's turn, nor to anything else.
pub proof fn law_cancelled_blip_at_onset_leaves_no_trace(
    s: Scene,
    t_ns: u64,
    onset_ns: u64,
    merge_gap_ms: u64,
)
    requires
        coherent(s),
        s.turns.len() < usize::MAX,
        s.tracker.user_open is None,
        s.tracker.group matches Some(g) ==> g.open_since_ns is None,
    ensures
        ({
            let opened = scene_after(s, LANE_MIC, SegEvent::Open { t_ns }, merge_gap_ms);
            let started = scene_after(
                opened,
                LANE_SYS,
                SegEvent::Open { t_ns: onset_ns },
                merge_gap_ms,
            );
            let direct = scene_after(s, LANE_SYS, SegEvent::Open { t_ns: onset_ns }, merge_gap_ms);
            scene_after(started, LANE_MIC, SegEvent::Cancel, merge_gap_ms) == direct
        }),
{
    let opened = scene_after(s, LANE_MIC, SegEvent::Open { t_ns }, merge_gap_ms);
    let started = scene_after(opened, LANE_SYS, SegEvent::Open { t_ns: onset_ns }, merge_gap_ms);
    let direct = scene_after(s, LANE_SYS, SegEvent::Open { t_ns: onset_ns }, merge_gap_ms);
    let after = scene_after(started, LANE_MIC, SegEvent::Cancel, merge_gap_ms);
    assert(after.turns =~= direct.turns);
}

/// A mic blip under bot audio that closes before the minimum barge length
/// leaves no interruption behind, and is not remembered as a barge-in.
pub proof fn law_short_blip_leaves_no_interruption(
    s: Scene,
    open_ns: u64,
    close_ns: u64,
    merge_gap_ms: u64,
)
    requires
        coherent(s),
        s.interruptions.len() < usize::MAX,
        s.tracker.user_open is None,
        close_ns - open_ns < 250_000_000,
    ensures
        ({
            let opened = scene_after(s, LANE_MIC, SegEvent::Open { t_ns: open_ns }, merge_gap_ms);
            let after = scene_after(
                opened,
                LANE_MIC,
                SegEvent::Close { t_ns: close_ns },
                merge_gap_ms,
            );
            let block = UserBlock { start_ns: open_ns, end_ns: close_ns, during_bot: false };
            after == (Scene {
                tracker: TrackerState {
                    user_blocks: s.tracker.user_blocks.push(block),
                    ..s.tracker
                },
                ..s
            })
        }),
{
    let opened = scene_after(s, LANE_MIC, SegEvent::Open { t_ns: open_ns }, merge_gap_ms);
    let after = scene_after(opened, LANE_MIC, SegEvent::Close { t_ns: close_ns }, merge_gap_ms);
    assert(after.interruptions =~= s.interruptions);
}

/// A response that is paired with such a blip is not flagged as a barge-in.
pub proof fn law_short_blip_flags_no_barge_in(
    s: Scene,
    g: BotGroup,
    open_ns: u64,
    close_ns: u64,
    stop_ns: u64,
    onset_ns: u64,
    merge_gap_ms: u64,
)
    requires
        coherent(s),
        s.interruptions.len() < usize::MAX,
        s.turns.len() < usize::MAX,
        s.tracker.user_open is None,
        s.tracker.group == Some(g),
        g.open_since_ns is Some,
        close_ns - open_ns < 250_000_000,
        g.onset_ns < close_ns <= onset_ns,
        merge_gap_ms == 0 || onset_ns - stop_ns >= merge_gap_ms * 1_000_000,
    ensures
        ({
            let opened = scene_after(s, LANE_MIC, SegEvent::Open { t_ns: open_ns }, merge_gap_ms);
            let closed = scene_after(
                opened,
                LANE_MIC,
                SegEvent::Close { t_ns: close_ns },
                merge_gap_ms,
            );
            let stopped = scene_after(
                closed,
                LANE_SYS,
                SegEvent::Close { t_ns: stop_ns },
                merge_gap_ms,
            );
            let after = scene_after(
                stopped,
                LANE_SYS,
                SegEvent::Open { t_ns: onset_ns },
                merge_gap_ms,
            );
            &&& after.turns.len() == s.turns.len() + 1
            &&& after.turns.last().user_end_ns == Some(close_ns)
            &&& !after.turns.last().flags.barge_in
        }),
{
    law_short_blip_leaves_no_interruption(s, open_ns, close_ns, merge_gap_ms);
}

/// Speech that began no earlier than the bot's last sound leaves no
/// interruption and is no barge-in, though the bot's block was still held open
/// when it began.
pub proof fn law_speech_after_bot_audio_is_no_barge_in(
    s: Scene,
    open_ns: u64,
    stop_ns: u64,
    merge_gap_ms: u64,
)
    requires
        coherent(s),
        s.interruptions.len() < usize::MAX,
        s.tracker.group is Some && s.tracker.group->0.open_since_ns is Some,
        s.tracker.pending_interruption is None,
        stop_ns <= open_ns,
    ensures
        ({
            let opened = scene_after(s, LANE_MIC, SegEvent::Open { t_ns: open_ns }, merge_gap_ms);
            let after = scene_after(
                opened,
                LANE_SYS,
                SegEvent::Close { t_ns: stop_ns },
                merge_gap_ms,
            );
            &&& after.interruptions == s.interruptions
            &&& after.tracker.user_open is Some && !after.tracker.user_open->0.during_bot
        }),
{
    let opened = scene_after(s, LANE_MIC, SegEvent::Open { t_ns: open_ns }, merge_gap_ms);
    let after = scene_after(opened, LANE_SYS, SegEvent::Close { t_ns: stop_ns }, merge_gap_ms);
    assert(after.interruptions =~= s.interruptions);
}

/// Nor is speech that began over bot audio which itself was a blip.
pub proof fn law_speech_over_bot_blip_is_no_barge_in(s: Scene, open_ns: u64, merge_gap_ms: u64)
    requires
        coherent(s),
        s.interruptions.len() < usize::MAX,
        s.tracker.group is Some && s.tracker.group->0.open_since_ns is Some,
        s.tracker.pending_interruption is None,
    ensures
        ({
            let opened = scene_after(s, LANE_MIC, SegEvent::Open { t_ns: open_ns }, merge_gap_ms);
            let after = scene_after(opened, LANE_SYS, SegEvent::Cancel, merge_gap_ms);
            &&& after.interruptions == s.interruptions
            &&& after.tracker.user_open is Some && !after.tracker.user_open->0.during_bot
        }),
{
    let opened = scene_after(s, LANE_MIC, SegEvent::Open { t_ns: open_ns }, merge_gap_ms);
    let after = scene_after(opened, LANE_SYS, SegEvent::Cancel, merge_gap_ms);
    assert(after.interruptions =~= s.interruptions);
}

/// A bot blip that is cancelled leaves no trace, whether it would have been a
/// response of its own or part of an earlier one: everything is as it was. A
/// response that comes afterwards is paired, measured and flagged as if the
/// blip had not been.
pub proof fn law_cancelled_bot_blip_leaves_no_trace(
    s: Scene,
    t_ns: u64,
    later_ns: u64,
    merge_gap_ms: u64,
)
    requires
        coherent(s),
        s.turns.len() < usize::MAX,
        s.tracker.group matches Some(g) ==> g.open_since_ns is None,
    ensures
        ({
            let opened = scene_after(s, LANE_SYS, SegEvent::Open { t_ns }, merge_gap_ms);
            let after = scene_after(opened, LANE_SYS, SegEvent::Cancel, merge_gap_ms);
            let direct = scene_after(s, LANE_SYS, SegEvent::Open { t_ns: later_ns }, merge_gap_ms);
            &&& after == s
            &&& scene_after(after, LANE_SYS, SegEvent::Open { t_ns: later_ns }, merge_gap_ms)
                == direct
        }),
{
    let opened = scene_after(s, LANE_SYS, SegEvent::Open { t_ns }, merge_gap_ms);
    let after = scene_after(opened, LANE_SYS, SegEvent::Cancel, merge_gap_ms);
    assert(after.turns =~= s.turns);
}

/// Bot sound after a pause shorter than the merge gap continues the response:
/// no new turn, the same onset and latency.
pub proof fn law_short_pause_continues_response(
    s: Scene,
    g: BotGroup,
    t_ns: u64,
    end_ns: u64,
    merge_gap_ms: u64,
)
    requires
        coherent(s),
        s.tracker.group == Some(g),
        g.open_since_ns is None,
        merge_gap_ms > 0,
        t_ns - last_sound(g) < merge_gap_ms * 1_000_000,
    ensures
        ({
            let opened = scene_after(s, LANE_SYS, SegEvent::Open { t_ns }, merge_gap_ms);
            let closed = scene_after(
                opened,
                LANE_SYS,
                SegEvent::Close { t_ns: end_ns },
                merge_gap_ms,
            );
            &&& opened.turns == s.turns
            &&& closed.turns == s.turns.update(
                s.turns.len() - 1,
                TurnRecord { bot_group_end_ns: Some(end_ns), ..s.turns.last() },
            )
        }),
{
    assert(turn_coherent(s.turns[s.turns.len() - 1], s.turns.len() - 1));
}

/// A response that starts after the user fell silent is paired with the last
/// utterance, and its latency is exactly onset minus end of speech.
pub proof fn law_response_latency(s: Scene, onset_ns: u64, merge_gap_ms: u64)
    requires
        coherent(s),
        s.turns.len() < usize::MAX,
        s.tracker.user_open is None,
        s.tracker.user_blocks.len() > 0,
        s.tracker.user_blocks.last().end_ns <= onset_ns,
        match s.tracker.group {
            Some(g) => g.open_since_ns is None && (merge_gap_ms == 0 || onset_ns - last_sound(g)
                >= merge_gap_ms * 1_000_000)
                && s.tracker.user_blocks.last().end_ns > g.onset_ns,
            None => s.tracker.user_blocks.last().end_ns > 0,
        },
    ensures
        ({
            let after = scene_after(s, LANE_SYS, SegEvent::Open { t_ns: onset_ns }, merge_gap_ms);
            let b = s.tracker.user_blocks.last();
            &&& after.turns.len() == s.turns.len() + 1
            &&& after.turns.last().user_end_ns == Some(b.end_ns)
            &&& after.turns.last().latency_ms == Some(Millis { ns: (onset_ns - b.end_ns) as u64 })
            &&& after.turns.last().flags.barge_in == b.during_bot
            &&& !after.turns.last().flags.double_talk
            &&& !after.turns.last().flags.no_user_speech
        }),
{
}

/// A mic block still held open at the onset, whose close arrives later but is
/// backdated to before it, gives the turn its latency all the same.
pub proof fn law_late_mic_close_yields_latency(s: Scene, g: BotGroup, t_ns: u64, merge_gap_ms: u64)
    requires
        coherent(s),
        s.tracker.group == Some(g),
        g.awaiting_user,
        t_ns <= g.onset_ns,
    ensures
        ({
            let after = scene_after(s, LANE_MIC, SegEvent::Close { t_ns }, merge_gap_ms);
            &&& after.turns.len() == s.turns.len()
            &&& after.turns.last().user_end_ns == Some(t_ns)
            &&& after.turns.last().latency_ms == Some(Millis { ns: (g.onset_ns - t_ns) as u64 })
            &&& !after.turns.last().flags.no_user_speech
        }),
{
}

/// A sustained mic block that really spans the onset is double talk, and the
/// turn's latency stays undefined.
pub proof fn law_spanning_mic_block_is_double_talk(
    s: Scene,
    g: BotGroup,
    t_ns: u64,
    merge_gap_ms: u64,
)
    requires
        coherent(s),
        s.tracker.group == Some(g),
        g.awaiting_user,
        t_ns > g.onset_ns,
        t_ns - s.tracker.user_open->0.start_ns >= 250_000_000,
    ensures
        ({
            let after = scene_after(s, LANE_MIC, SegEvent::Close { t_ns }, merge_gap_ms);
            &&& after.turns.len() == s.turns.len()
            &&& after.turns.last().flags.double_talk
            &&& after.turns.last().latency_ms is None
        }),
{
}

/// Sustained user audio that overlaps the response being played is flagged as
/// double talk, whatever became of the bot block that was in progress when it
/// began; short of that, and with no pairing open, the turns stay as they are.
pub proof fn law_overlap_is_double_talk(
    s: Scene,
    g: BotGroup,
    open: OpenUser,
    t_ns: u64,
    merge_gap_ms: u64,
)
    requires
        coherent(s),
        s.tracker.group == Some(g),
        s.tracker.user_open == Some(open),
    ensures
        ({
            let after = scene_after(s, LANE_MIC, SegEvent::Close { t_ns }, merge_gap_ms);
            let overlapping = g.open_since_ns is Some && t_ns - open.start_ns >= 250_000_000 && t_ns
                >= g.onset_ns && (open.over_bot || t_ns > g.open_since_ns->0);
            &&& after.turns.len() == s.turns.len()
            &&& overlapping ==> after.turns.last().flags.double_talk
            &&& !overlapping && !g.awaiting_user ==> after.turns == s.turns
        }),
{
}

/// A mic block that begins in a pause of a response and runs on, sustained,
/// under the audio that resumes it is double talk.
pub proof fn law_talking_into_resumed_audio_is_double_talk(
    s: Scene,
    g: BotGroup,
    open_ns: u64,
    resume_ns: u64,
    close_ns: u64,
    merge_gap_ms: u64,
)
    requires
        coherent(s),
        s.tracker.user_open is None,
        s.tracker.group == Some(g),
        g.open_since_ns is None,
        merge_gap_ms > 0,
        resume_ns - last_sound(g) < merge_gap_ms * 1_000_000,
        g.onset_ns <= resume_ns < close_ns,
        close_ns - open_ns >= 250_000_000,
    ensures
        ({
            let opened = scene_after(s, LANE_MIC, SegEvent::Open { t_ns: open_ns }, merge_gap_ms);
            let resumed = scene_after(
                opened,
                LANE_SYS,
                SegEvent::Open { t_ns: resume_ns },
                merge_gap_ms,
            );
            let after = scene_after(
                resumed,
                LANE_MIC,
                SegEvent::Close { t_ns: close_ns },
                merge_gap_ms,
            );
            &&& after.turns.len() == s.turns.len()
            &&& after.turns.last().flags.double_talk
        }),
{
}

proof fn lemma_no_utterance(blocks: Seq<UserBlock>, onset_ns: u64, after_ns: u64)
    requires
        forall|i: int|
            0 <= i < blocks.len() ==> !(after_ns < (#[trigger] blocks[i]).end_ns <= onset_ns),
    ensures
        latest_utterance(blocks, onset_ns, after_ns) is None,
    decreases blocks.len(),
{
    if blocks.len() > 0 {
        assert(blocks.last() == blocks[blocks.len() - 1]);
        assert forall|i: int| 0 <= i < blocks.drop_last().len() implies !(after_ns < (
        #[trigger] blocks.drop_last()[i]).end_ns <= onset_ns) by {
            assert(blocks.drop_last()[i] == blocks[i]);
        }
        lemma_no_utterance(blocks.drop_last(), onset_ns, after_ns);
    }
}

/// A bot that speaks again, with no utterance since its previous response
/// began, is counted and flagged, never dropped.
pub proof fn law_unprompted_response_is_flagged(
    s: Scene,
    g: BotGroup,
    onset_ns: u64,
    merge_gap_ms: u64,
)
    requires
        coherent(s),
        s.turns.len() < usize::MAX,
        s.tracker.group == Some(g),
        g.open_since_ns is None,
        merge_gap_ms == 0 || onset_ns - last_sound(g) >= merge_gap_ms * 1_000_000,
        s.tracker.user_open is None,
        forall|i: int|
            0 <= i < s.tracker.user_blocks.len() ==> !(g.onset_ns < (
            #[trigger] s.tracker.user_blocks[i]).end_ns <= onset_ns),
    ensures
        ({
            let after = scene_after(s, LANE_SYS, SegEvent::Open { t_ns: onset_ns }, merge_gap_ms);
            &&& after.turns.len() == s.turns.len() + 1
            &&& after.turns.last().flags.no_user_speech
            &&& after.turns.last().latency_ms is None
        }),
{
    lemma_no_utterance(s.tracker.user_blocks, onset_ns, g.onset_ns);
}

/// After a device change exactly the next response is flagged.
pub proof fn law_device_change_flags_next_turn(
    s: Scene,
    first_ns: u64,
    stop_ns: u64,
    second_ns: u64,
    merge_gap_ms: u64,
)
    requires
        s.tracker.pending_discontinuity,
        s.tracker.group matches Some(g) ==> g.open_since_ns is None,
        s.tracker.group matches Some(g) ==> merge_gap_ms == 0 || first_ns - last_sound(g)
            >= merge_gap_ms * 1_000_000,
        s.turns.len() + 1 < usize::MAX,
    ensures
        ({
            let one = scene_after(s, LANE_SYS, SegEvent::Open { t_ns: first_ns }, merge_gap_ms);
            let closed = scene_after(one, LANE_SYS, SegEvent::Close { t_ns: stop_ns }, merge_gap_ms);
            let two = scene_after(closed, LANE_SYS, SegEvent::Open { t_ns: second_ns }, merge_gap_ms);
            &&& one.turns.len() == s.turns.len() + 1
            &&& one.turns.last().flags.after_discontinuity
            &&& two.turns.len() > one.turns.len()
                ==> !two.turns.last().flags.after_discontinuity
        }),
{
}

/// In every scene, a turn with an utterance has as its user response time the
/// gap from the end of the previous response to the start of that utterance, if
/// it started later.
pub proof fn law_user_response_is_the_gap(s: Scene, i: int)
    requires
        coherent(s),
        0 <= i < s.turns.len(),
        s.turns[i].user_start_ns is Some,
    ensures
        i > 0 && s.turns[i - 1].bot_group_end_ns is Some && s.turns[i].user_start_ns->0
            > s.turns[i - 1].bot_group_end_ns->0 ==> s.turns[i].user_response_ms == Some(
            Millis {
                ns: (s.turns[i].user_start_ns->0 - s.turns[i - 1].bot_group_end_ns->0) as u64,
            },
        ),
        i == 0 || s.turns[i - 1].bot_group_end_ns is None || s.turns[i].user_start_ns->0
            <= s.turns[i - 1].bot_group_end_ns->0 ==> s.turns[i].user_response_ms is None,
{
    assert(response_coherent(s.turns[i], end_before(s.turns, i)));
}

/// The user's response time is the gap between the end of the bot's previous
/// response and the start of the utterance, and goes to the turn that answers
/// it.
pub proof fn law_user_response_time(
    s: Scene,
    g: BotGroup,
    bot_end_ns: u64,
    open_ns: u64,
    close_ns: u64,
    onset_ns: u64,
    merge_gap_ms: u64,
)
    requires
        coherent(s),
        s.turns.len() < usize::MAX,
        s.tracker.user_open is None,
        s.tracker.group == Some(g),
        g.open_since_ns is None,
        g.last_end_ns == Some(bot_end_ns),
        open_ns > bot_end_ns,
        g.onset_ns < close_ns <= onset_ns,
        merge_gap_ms == 0 || onset_ns - bot_end_ns >= merge_gap_ms * 1_000_000,
    ensures
        ({
            let opened = scene_after(s, LANE_MIC, SegEvent::Open { t_ns: open_ns }, merge_gap_ms);
            let closed = scene_after(
                opened,
                LANE_MIC,
                SegEvent::Close { t_ns: close_ns },
                merge_gap_ms,
            );
            let after = scene_after(
                closed,
                LANE_SYS,
                SegEvent::Open { t_ns: onset_ns },
                merge_gap_ms,
            );
            &&& after.turns.len() == s.turns.len() + 1
            &&& after.turns.last().user_response_ms == Some(
                Millis { ns: (open_ns - bot_end_ns) as u64 },
            )
        }),
{
}

/// Mic audio over bot audio is recorded as an interruption in flight, from the
/// mic onset.
pub proof fn law_barge_in_is_recorded(s: Scene, t_ns: u64, merge_gap_ms: u64)
    requires
        coherent(s),
        s.tracker.group is Some && s.tracker.group->0.open_since_ns is Some,
        s.tracker.pending_interruption is None,
        s.interruptions.len() < usize::MAX,
    ensures
        ({
            let after = scene_after(s, LANE_MIC, SegEvent::Open { t_ns }, merge_gap_ms);
            &&& after.interruptions == s.interruptions.push(
                InterruptionRecord { mic_open_ns: t_ns, sys_stop_ns: None, stop_ms: None },
            )
            &&& after.tracker.user_open is Some && after.tracker.user_open->0.during_bot
        }),
{
}

} // verus!
