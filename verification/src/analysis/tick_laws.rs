//! What a tick does to the engine and to what is shown, step by step.

use vstd::prelude::*;
use crate::analysis::engine::{
    batch_of, batch_processed, batch_segmented, chunk_times, closing_edge, lane_gate, lane_shown,
    lanes_taken, session_wrapped_up, speech_taken, tap_followed, tick_begun, tick_ended, Batch,
    EngineState, LaneBatch, Transition,
};
use crate::analysis::events::{
    board_after, board_of, law_each_speech_edge, put_in, speech_after, time_ordered, Board,
    TickEvent,
};
use crate::analysis::lane::{binned, caught_up, Binning, LaneProc};
use crate::analysis::segmenter::{segmented, sized, ActiveBlock, Run, SegEvent, Segmentation};
use crate::analysis::turns::{fresh_tracker, scene_after, Scene};
use crate::analysis::vad::{followed, ChunkProb};
use crate::config::Config;
use crate::session::{Block, LaneState, Phase, Shared};

verus! {

/// A session has started exactly if one runs now and none ran before, and has
/// stopped exactly if it is the other way round. From then on the engine runs as
/// the session does.
pub proof fn law_tick_follows_the_phase(
    e: EngineState,
    sh: Shared,
    e_after: EngineState,
    sh_after: Shared,
    t: Transition,
    now_ns: u64,
)
    requires
        tick_begun(e, sh, e_after, sh_after, t, now_ns),
    ensures
        t is Started <==> sh.phase == Phase::Running && !e.was_running,
        t is Stopped <==> sh.phase != Phase::Running && e.was_running,
        t is Started ==> t->record == (sh.cfg.record_wav && sh.session_dir is Some),
        e_after.was_running == (sh.phase == Phase::Running),
        e_after.queue.len() == 0,
        sh_after.phase == sh.phase,
        sh_after.cfg == sh.cfg,
        t !is Stopped ==> sh_after == sh,
{
}

/// A tick within a session, or between sessions, begins with an empty queue and
/// leaves all else as it is.
pub proof fn law_steady_tick_changes_nothing(
    e: EngineState,
    sh: Shared,
    e_after: EngineState,
    sh_after: Shared,
    t: Transition,
    now_ns: u64,
)
    requires
        tick_begun(e, sh, e_after, sh_after, t, now_ns),
        e.was_running == (sh.phase == Phase::Running),
    ensures
        sh_after == sh,
        e_after.lanes == e.lanes,
        e_after.tracker == e.tracker,
        e_after.was_running == e.was_running,
        e_after.gate == e.gate,
        e_after.speech == e.speech,
        e_after.vad_failed == e.vad_failed,
        e_after.last_mic_gen == e.last_mic_gen,
{
}

/// A session starts with no turn in progress, no bot audio remembered, no speech
/// tracked, and with the classifier given another chance. Both lanes begin anew,
/// recorded or not as asked; their streams go on.
pub proof fn law_session_start_clears_the_engine(
    e: EngineState,
    sh: Shared,
    e_after: EngineState,
    sh_after: Shared,
    t: Transition,
    now_ns: u64,
)
    requires
        tick_begun(e, sh, e_after, sh_after, t, now_ns),
        t is Started,
    ensures
        e_after.tracker.user_blocks.len() == 0,
        e_after.tracker.user_open is None,
        e_after.tracker.group is None,
        e_after.tracker.displaced is None,
        !e_after.tracker.pending_discontinuity,
        e_after.tracker.pending_interruption is None,
        e_after.gate.open_since is None,
        e_after.gate.intervals.len() == 0,
        e_after.speech.open_ns is None,
        e_after.speech.last_speech_end_ns == 0,
        !e_after.vad_failed,
        e_after.last_mic_gen == e.last_mic_gen,
        e_after.lanes.len() == 2,
        forall|k: int|
            0 <= k < 2 ==> {
                let lane = #[trigger] e_after.lanes[k];
                &&& lane.wav_pending == (sh.cfg.record_wav && sh.session_dir is Some)
                &&& lane.bin.count == 0 && lane.bin.start_sample == e.lanes[k].consumed
                &&& lane.segmenter.active is None
                &&& lane.consumed == e.lanes[k].consumed
                &&& lane.gen == e.lanes[k].gen
                &&& lane.timemap == e.lanes[k].timemap
                &&& lane.seen_device_changes == e.lanes[k].seen_device_changes
            },
{
}

/// The engine starts as it is at the start of a session, but for a session.
pub proof fn law_new_engine_is_idle()
    ensures
        !EngineState::fresh().was_running,
        EngineState::fresh().queue.len() == 0,
        EngineState::fresh().lanes.len() == 2,
        EngineState::fresh().tracker == fresh_tracker(),
        EngineState::fresh().gate.open_since is None,
        EngineState::fresh().gate.intervals.len() == 0,
        EngineState::fresh().speech.open_ns is None,
        !EngineState::fresh().vad_failed,
        forall|k: int|
            0 <= k < 2 ==> (#[trigger] EngineState::fresh().lanes[k]).consumed == 0
                && !EngineState::fresh().lanes[k].timemap.ready
                && EngineState::fresh().lanes[k].segmenter.active is None
                && !EngineState::fresh().lanes[k].wav_pending,
{
}

/// The block list of a lane once a session has ended with the block `active` in
/// progress, drawn from `start`: the block is kept, up to its last sound, if it
/// lasted the minimum.
pub open spec fn finished(
    blocks: Seq<Block>,
    start: Option<u64>,
    active: Option<ActiveBlock>,
    min_block_ms: u64,
) -> Seq<Block> {
    match (start, active) {
        (Some(start_ns), Some(b)) => if b.last_above_ns - b.open_ns >= min_block_ms * 1_000_000 {
            blocks.push(Block { start_ns, end_ns: b.last_above_ns })
        } else {
            blocks
        },
        _ => blocks,
    }
}

/// The end of a session finishes the block in progress of each lane by the lane's
/// own settings.
pub proof fn law_session_end_keeps_long_blocks(
    e: EngineState,
    sh: Shared,
    e_after: EngineState,
    sh_after: Shared,
    now_ns: u64,
)
    requires
        e.wf(),
        session_wrapped_up(e, sh, e_after, sh_after, now_ns),
        forall|k: int|
            0 <= k < 2 && (#[trigger] e.lanes[k]).segmenter.active is Some
                ==> e.lanes[k].segmenter.active->0.open_ns
                <= e.lanes[k].segmenter.active->0.last_above_ns,
    ensures
        sh_after.lanes[0].blocks@ == finished(
            sh.lanes[0].blocks@,
            sh.lanes[0].open_start_ns,
            e.lanes[0].segmenter.active,
            sh.cfg.mic_segmenter.min_block_ms,
        ),
        sh_after.lanes[1].blocks@ == finished(
            sh.lanes[1].blocks@,
            sh.lanes[1].open_start_ns,
            e.lanes[1].segmenter.active,
            sh.cfg.sys_segmenter.min_block_ms,
        ),
{
    let sys = closing_edge(e.lanes[1].segmenter, sh.cfg.sys_segmenter);
    let mic = closing_edge(e.lanes[0].segmenter, sh.cfg.mic_segmenter);
    let edges = e.closing_edges(sh.cfg, now_ns);
    let b = board_of(sh, e.tracker);
    let gap = sh.cfg.merge_gap_ms;
    assert(e.lanes[0].segmenter.active == e.lanes[0].segmenter.active);
    assert(e.lanes[1].segmenter.active == e.lanes[1].segmenter.active);
    reveal_with_fuel(time_ordered, 3);
    reveal_with_fuel(put_in, 3);
    reveal_with_fuel(board_after, 3);
    let sorted = time_ordered(edges);
    let after = board_after(b, sorted, gap);
    assert(board_of(sh_after, e_after.tracker).blocks == after.blocks);
    assert(after.blocks[0] == board_of(sh_after, e_after.tracker).blocks[0]);
    assert(after.blocks[1] == board_of(sh_after, e_after.tracker).blocks[1]);
    if sys.len() == 1 && mic.len() == 1 {
        let s = edges[0];
        let m = edges[1];
        assert(edges =~= seq![s, m]);
        assert(edges.drop_last() =~= seq![s]);
        assert(seq![s].drop_last() =~= Seq::empty());
        assert(time_ordered(seq![s]) =~= seq![s]);
        assert(sorted =~= seq![s, m] || sorted =~= seq![m, s]);
        assert(sorted.drop_last().drop_last() =~= Seq::empty());
    } else if sys.len() == 1 || mic.len() == 1 {
        assert(edges =~= seq![edges[0]]);
        assert(sorted =~= edges);
        assert(sorted.drop_last() =~= Seq::empty());
    } else {
        assert(edges =~= Seq::empty());
    }
}

/// The end of a session ends the lanes' recordings and the speech region in
/// progress, and touches neither the waveforms nor the settings nor the streams.
pub proof fn law_session_end_leaves_the_rest(
    e: EngineState,
    sh: Shared,
    e_after: EngineState,
    sh_after: Shared,
    now_ns: u64,
)
    requires
        e.wf(),
        session_wrapped_up(e, sh, e_after, sh_after, now_ns),
    ensures
        e_after.gate == e.gate,
        e_after.queue == e.queue,
        e_after.was_running == e.was_running,
        e_after.vad_failed == e.vad_failed,
        e_after.last_mic_gen == e.last_mic_gen,
        e_after.speech.open_ns is None,
        forall|k: int|
            0 <= k < 2 ==> {
                let lane = #[trigger] e_after.lanes[k];
                &&& !lane.wav_pending
                &&& lane.segmenter.active is None
                &&& lane.consumed == e.lanes[k].consumed
                &&& lane.gen == e.lanes[k].gen
                &&& lane.timemap == e.lanes[k].timemap
                &&& lane.bin == e.lanes[k].bin
            },
        forall|k: int|
            0 <= k < 2 ==> {
                let lane = #[trigger] sh_after.lanes[k];
                &&& lane.bins == sh.lanes[k].bins
                &&& lane.level_db == sh.lanes[k].level_db
                &&& lane.effective_threshold_db == sh.lanes[k].effective_threshold_db
                &&& lane.dropped == sh.lanes[k].dropped
                &&& lane.last_sample_ns == sh.lanes[k].last_sample_ns
            },
        sh_after.lanes[1].speech == sh.lanes[1].speech,
        e.speech.open_ns is None ==> sh_after.lanes[0].speech@ == sh.lanes[0].speech@
            && sh_after.lanes[0].speech_open_ns == sh.lanes[0].speech_open_ns,
        e.speech.open_ns is Some ==> sh_after.lanes[0].speech_open_ns is None,
        e.speech.open_ns is Some && sh.lanes[0].speech_open_ns is Some ==> {
            let heard = e.speech.last_speech_end_ns - e.speech.open_ns->0;
            &&& heard >= 96_000_000 ==> sh_after.lanes[0].speech@ == sh.lanes[0].speech@.push(
                Block {
                    start_ns: sh.lanes[0].speech_open_ns->0,
                    end_ns: e.speech.last_speech_end_ns,
                },
            )
            &&& heard < 96_000_000 ==> sh_after.lanes[0].speech@ == sh.lanes[0].speech@
        },
        sh_after.phase == sh.phase,
        sh_after.session_start_ns == sh.session_start_ns,
        sh_after.session_end_ns == sh.session_end_ns,
        sh_after.cfg == sh.cfg,
        sh_after.events == sh.events,
        sh_after.discontinuities == sh.discontinuities,
        sh_after.bridge == sh.bridge,
        sh_after.devices == sh.devices,
{
    if e.speech.open_ns is Some {
        let end = e.closing_speech()[0];
        assert(e.closing_speech() =~= seq![end]);
        law_each_speech_edge(sh.lanes[0].speech_open_ns, sh.lanes[0].speech@, end);
    }
}

/// The mic is gated exactly within a session, where the echo gate is enabled, while bot
/// audio or its tail can be heard; the system lane never is.
pub proof fn law_mic_is_gated_by_bot_audio(e: EngineState, cfg: Config, t_ns: u64)
    ensures
        lane_gate(e, 0, cfg)(t_ns) <==> e.was_running && cfg.echo_gate.enabled && e.gate.shut(
            t_ns,
            cfg.echo_gate.tail_ms,
        ),
        !lane_gate(e, 1, cfg)(t_ns),
{
}

/// Each lane is segmented by its own settings, from where its stream stands, on
/// the detection signal.
pub proof fn law_each_lane_has_its_own_settings(
    e: EngineState,
    cfg: Config,
    batch: Batch,
    time: spec_fn(u64) -> u64,
)
    ensures
        forall|lane: usize|
            lane < 2 ==> #[trigger] batch_segmented(e, lane, cfg, batch, time) == segmented(
                Segmentation {
                    seg: sized(
                        e.lanes[lane as int].segmenter,
                        batch.window,
                        e.lanes[lane as int].consumed,
                    ),
                    events: Seq::empty(),
                    used: 0,
                },
                batch.det,
                Run {
                    base_sample: e.lanes[lane as int].consumed,
                    amp_threshold: batch.amp_threshold,
                    levels: batch.levels,
                    cfg: if lane == 0 {
                        cfg.mic_segmenter
                    } else {
                        cfg.sys_segmenter
                    },
                    time,
                    gated: lane_gate(e, lane, cfg),
                },
            ),
{
}

/// A batch moves its lane along by as many samples as it holds, and touches
/// nothing of the other lane, the turns, or the speech.
pub proof fn law_batch_moves_its_lane_along(
    e: EngineState,
    lane: usize,
    sh: Shared,
    batch: Batch,
    now_ns: u64,
    time: spec_fn(u64) -> u64,
)
    requires
        e.wf(),
        lane < 2,
        e.lanes[lane as int].consumed + batch.samples.len() <= u64::MAX,
    ensures
        ({
            let after = batch_processed(e, lane, sh, batch, now_ns, time);
            let was = e.lanes[lane as int];
            let is = after.lanes[lane as int];
            &&& after.lanes.len() == 2
            &&& is.consumed == was.consumed + batch.samples.len()
            &&& is.gen == was.gen
            &&& is.timemap == was.timemap
            &&& is.wav_pending == was.wav_pending
            &&& is.seen_device_changes == was.seen_device_changes
            &&& after.lanes[1 - lane] == e.lanes[1 - lane]
            &&& after.tracker == e.tracker
            &&& after.was_running == e.was_running
            &&& after.speech == e.speech
            &&& after.vad_failed == e.vad_failed
            &&& after.last_mic_gen == e.last_mic_gen
            &&& !was.timemap.ready ==> is.segmenter == was.segmenter && is.bin == was.bin
            &&& !was.timemap.ready || !e.was_running ==> after.queue == e.queue && after.gate
                == e.gate && is.bin == was.bin
            &&& lane == 0 ==> after.gate == e.gate
        }),
{
}

/// Within a session, every edge of a batch is queued behind what waits, in order,
/// and the edges of bot audio reach the echo gate; the samples as captured are
/// drawn.
pub proof fn law_batch_edges_are_queued(
    e: EngineState,
    lane: usize,
    sh: Shared,
    batch: Batch,
    now_ns: u64,
    time: spec_fn(u64) -> u64,
)
    requires
        e.wf(),
        lane < 2,
        e.was_running,
        e.lanes[lane as int].timemap.ready,
    ensures
        ({
            let after = batch_processed(e, lane, sh, batch, now_ns, time);
            let was = e.lanes[lane as int];
            let end = batch_segmented(e, lane, sh.cfg, batch, time);
            let n = e.queue.len();
            &&& after.lanes[lane as int].segmenter == end.seg
            &&& after.lanes[lane as int].bin == binned(
                Binning {
                    bin: caught_up(was.bin, was.consumed),
                    levels: sh.lanes[lane as int].bins@,
                },
                batch.samples,
                was.consumed,
                batch.fine_samples,
                sh.session_start_ns,
                time,
            ).bin
            &&& lane == 1 ==> after.gate == e.gate.after_all(end.events)
            &&& after.queue.len() == n + end.events.len()
            &&& after.queue.take(n as int) == e.queue
            &&& forall|i: int|
                0 <= i < end.events.len() ==> {
                    let queued = after.queue[n + i];
                    let edge = #[trigger] end.events[i];
                    &&& queued.lane == lane
                    &&& queued.event == edge
                    &&& edge is Open ==> queued.t_ns == edge->Open_t_ns
                    &&& edge is Close ==> queued.t_ns == edge->Close_t_ns
                    &&& edge is Cancel ==> queued.t_ns == now_ns
                }
        }),
{
    let after = batch_processed(e, lane, sh, batch, now_ns, time);
    assert(after.queue.take(e.queue.len() as int) =~= e.queue);
}

/// A lane shows the level measured, the threshold in force and, once its stream
/// can be placed in time, the time of its latest sample. The waveform grows only
/// within a session, and a batch ends or begins nothing else that is shown.
pub proof fn law_lane_shows_the_batch(
    e: EngineState,
    lane: usize,
    sh: Shared,
    batch: Batch,
    time: spec_fn(u64) -> u64,
    after: LaneState,
)
    requires
        lane < 2,
        lane_shown(e, lane, sh, batch, time, after),
        e.lanes[lane as int].consumed + batch.samples.len() <= u64::MAX,
    ensures
        ({
            let p = e.lanes[lane as int];
            let before = sh.lanes[lane as int];
            &&& after.level_db == batch.level_db
            &&& after.effective_threshold_db == p.segmenter.effective_threshold_db
            &&& p.timemap.ready ==> after.last_sample_ns == time(
                (p.consumed + batch.samples.len()) as u64,
            )
            &&& !p.timemap.ready ==> after.last_sample_ns == before.last_sample_ns
            &&& p.timemap.ready && e.was_running ==> after.bins@ == binned(
                Binning { bin: caught_up(p.bin, p.consumed), levels: before.bins@ },
                batch.samples,
                p.consumed,
                batch.fine_samples,
                sh.session_start_ns,
                time,
            ).levels
            &&& !p.timemap.ready || !e.was_running ==> after.bins@ == before.bins@
            &&& after.blocks == before.blocks
            &&& after.open_start_ns == before.open_start_ns
            &&& after.speech == before.speech
            &&& after.speech_open_ns == before.speech_open_ns
            &&& after.dropped == before.dropped
        }),
{
}

/// A stream that delivered nothing changes nothing; what both delivered is
/// processed for both.
pub proof fn law_silent_stream_changes_nothing(
    e: EngineState,
    sh: Shared,
    e_after: EngineState,
    sh_after: Shared,
    sys: Option<Batch>,
    mic: Option<Batch>,
    now_ns: u64,
    sys_time: spec_fn(u64) -> u64,
    mic_time: spec_fn(u64) -> u64,
)
    requires
        e.wf(),
        lanes_taken(e, sh, e_after, sh_after, sys, mic, now_ns, sys_time, mic_time),
        sys is Some ==> e.lanes[1].consumed + sys->0.samples.len() <= u64::MAX,
        mic is Some ==> e.lanes[0].consumed + mic->0.samples.len() <= u64::MAX,
    ensures
        sys is None && mic is None ==> e_after == e,
        sys is None ==> e_after.lanes[1] == e.lanes[1] && sh_after.lanes[1] == sh.lanes[1]
            && e_after.gate == e.gate,
        mic is None ==> e_after.lanes[0] == e.lanes[0] && sh_after.lanes[0] == sh.lanes[0],
        sys is Some ==> e_after.lanes[1].consumed == e.lanes[1].consumed + sys->0.samples.len(),
        mic is Some ==> e_after.lanes[0].consumed == e.lanes[0].consumed + mic->0.samples.len(),
        sh_after.turns == sh.turns,
        sh_after.interruptions == sh.interruptions,
        sh_after.events == sh.events,
        sh_after.phase == sh.phase,
        sh_after.cfg == sh.cfg,
        sh_after.discontinuities == sh.discontinuities,
{
}

/// Chunks are placed by the times of their first and last samples, but not before
/// the session; each keeps its probability and its place.
pub proof fn law_chunks_are_placed_in_the_session(
    chunks: Seq<ChunkProb>,
    start_ns: u64,
    time: spec_fn(u64) -> u64,
    i: int,
)
    requires
        0 <= i < chunks.len(),
    ensures
        ({
            let placed = chunk_times(chunks, start_ns, time);
            let from = time(chunks[i].start_sample);
            let to = time(chunks[i].end_sample);
            &&& placed.len() == chunks.len()
            &&& from >= start_ns ==> placed[i].0 == from
            &&& from < start_ns ==> placed[i].0 == start_ns
            &&& to >= start_ns ==> placed[i].1 == to
            &&& to < start_ns ==> placed[i].1 == start_ns
            &&& placed[i].2 == chunks[i].prob
        }),
{
}

/// Classified speech shows on the mic lane's speech intervals and nowhere else.
pub proof fn law_speech_is_for_display(
    e: EngineState,
    sh: Shared,
    e_after: EngineState,
    sh_after: Shared,
    chunks: Seq<ChunkProb>,
    time: spec_fn(u64) -> u64,
)
    requires
        speech_taken(e, sh, e_after, sh_after, chunks, time),
    ensures
        e_after.speech == followed(e.speech, chunk_times(chunks, sh.session_start_ns, time)).0,
        e_after.tracker == e.tracker,
        e_after.lanes == e.lanes,
        e_after.queue == e.queue,
        e_after.gate == e.gate,
        sh_after.turns == sh.turns,
        sh_after.interruptions == sh.interruptions,
        sh_after.lanes[1] == sh.lanes[1],
        sh_after.lanes[0].blocks == sh.lanes[0].blocks,
        sh_after.lanes[0].open_start_ns == sh.lanes[0].open_start_ns,
        sh_after.lanes[0].bins == sh.lanes[0].bins,
        sh_after.cfg == sh.cfg,
{
}

/// A change of the output device within a session is noted with its time, flags
/// the turn to come, and ends the bot audio in progress; one outside a session is
/// only counted; one seen before is nothing.
pub proof fn law_device_change_within_a_session(
    e: EngineState,
    sh: Shared,
    e_after: EngineState,
    sh_after: Shared,
    now_ns: u64,
    device_changes: Option<u64>,
    failed: bool,
)
    requires
        e.wf(),
        tap_followed(e, sh, e_after, sh_after, now_ns, device_changes, failed),
    ensures
        device_changes is None ==> e_after == e && sh_after.discontinuities@
            == sh.discontinuities@,
        device_changes is Some && device_changes->0 <= e.lanes[1].seen_device_changes ==> e_after
            == e && sh_after.discontinuities@ == sh.discontinuities@,
        device_changes is Some && device_changes->0 > e.lanes[1].seen_device_changes ==> {
            &&& e_after.lanes[1].seen_device_changes == device_changes->0
            &&& e_after.lanes[0] == e.lanes[0]
            &&& e_after.lanes[1].consumed == e.lanes[1].consumed
            &&& e_after.lanes[1].timemap == e.lanes[1].timemap
            &&& e_after.speech == e.speech
        },
        device_changes is Some && device_changes->0 > e.lanes[1].seen_device_changes
            && !e.was_running ==> {
            &&& sh_after.discontinuities@ == sh.discontinuities@
            &&& e_after.tracker == e.tracker
            &&& e_after.gate == e.gate
            &&& e_after.queue == e.queue
            &&& e_after.lanes[1].segmenter == e.lanes[1].segmenter
        },
        device_changes is Some && device_changes->0 > e.lanes[1].seen_device_changes
            && e.was_running ==> {
            let active = e.lanes[1].segmenter.active;
            &&& sh_after.discontinuities@ == sh.discontinuities@.push(now_ns)
            &&& e_after.tracker.pending_discontinuity
            &&& e_after.tracker.group == e.tracker.group
            &&& e_after.tracker.user_open == e.tracker.user_open
            &&& e_after.tracker.user_blocks == e.tracker.user_blocks
            &&& e_after.gate == e.gate.cut(now_ns)
            &&& e_after.lanes[1].segmenter.active is None
            &&& active is None ==> e_after.queue == e.queue
            &&& active is Some && active->0.open_ns + sh.cfg.sys_segmenter.min_block_ms * 1_000_000
                <= active->0.last_above_ns ==> e_after.queue == e.queue.push(
                TickEvent {
                    lane: 1,
                    t_ns: active->0.last_above_ns,
                    event: SegEvent::Close { t_ns: active->0.last_above_ns },
                },
            )
            &&& active is Some && active->0.last_above_ns < active->0.open_ns
                + sh.cfg.sys_segmenter.min_block_ms * 1_000_000 && sh.cfg.sys_segmenter.min_block_ms
                > 0 ==> e_after.queue == e.queue.push(
                TickEvent { lane: 1, t_ns: now_ns, event: SegEvent::Cancel },
            )
        },
        sh_after.turns == sh.turns,
        sh_after.lanes == sh.lanes,
{
    let edges = closing_edge(e.lanes[1].segmenter, sh.cfg.sys_segmenter);
    if device_changes is Some && device_changes->0 > e.lanes[1].seen_device_changes
        && e.was_running {
        if edges.len() == 0 {
            assert(e_after.queue =~= e.queue);
        } else {
            assert(e_after.queue =~= e.queue.push(e_after.queue.last()));
        }
    }
}

/// A tap that failed is reported once, where it was capturing; no other status is
/// overwritten.
pub proof fn law_tap_failure_is_reported(
    e: EngineState,
    sh: Shared,
    e_after: EngineState,
    sh_after: Shared,
    now_ns: u64,
    device_changes: Option<u64>,
    failed: bool,
)
    requires
        tap_followed(e, sh, e_after, sh_after, now_ns, device_changes, failed),
    ensures
        failed && sh.sys_status is Capturing ==> sh_after.sys_status is Error
            && sh_after.sys_status->Error_0@ == "system tap failed after device change"@,
        !failed || sh.sys_status !is Capturing ==> sh_after.sys_status == sh.sys_status,
{
}

/// Outside a session the end of a tick changes nothing. Within one, everything
/// that waits is applied in time order, and the engine but for its tracker stays
/// as it is.
pub proof fn law_tick_end_applies_the_queue(
    e: EngineState,
    sh: Shared,
    e_after: EngineState,
    sh_after: Shared,
)
    requires
        tick_ended(e, sh, e_after, sh_after),
    ensures
        e_after.lanes == e.lanes,
        e_after.gate == e.gate,
        e_after.speech == e.speech,
        e_after.queue == e.queue,
        e_after.was_running == e.was_running,
        !e.was_running ==> e_after.tracker == e.tracker && sh_after.turns@ == sh.turns@
            && sh_after.interruptions@ == sh.interruptions@ && sh_after.lanes[0].blocks@
            == sh.lanes[0].blocks@ && sh_after.lanes[1].blocks@ == sh.lanes[1].blocks@
            && sh_after.lanes[0].open_start_ns == sh.lanes[0].open_start_ns
            && sh_after.lanes[1].open_start_ns == sh.lanes[1].open_start_ns,
        e.was_running ==> {
            let board = board_after(
                board_of(sh, e.tracker),
                time_ordered(e.queue),
                sh.cfg.merge_gap_ms,
            );
            &&& e_after.tracker == board.scene.tracker
            &&& sh_after.turns@ == board.scene.turns
            &&& sh_after.interruptions@ == board.scene.interruptions
            &&& sh_after.lanes[0].blocks@ == board.blocks[0]
            &&& sh_after.lanes[1].blocks@ == board.blocks[1]
            &&& sh_after.lanes[0].open_start_ns == board.open[0]
            &&& sh_after.lanes[1].open_start_ns == board.open[1]
        },
        sh_after.events == sh.events,
        sh_after.cfg == sh.cfg,
        sh_after.phase == sh.phase,
        sh_after.lanes[0].bins == sh.lanes[0].bins,
        sh_after.lanes[1].bins == sh.lanes[1].bins,
        sh_after.lanes[0].speech == sh.lanes[0].speech,
{
    let now = board_of(sh_after, e_after.tracker);
    assert(now.blocks[0] == sh_after.lanes[0].blocks@);
    assert(now.blocks[1] == sh_after.lanes[1].blocks@);
    assert(now.open[0] == sh_after.lanes[0].open_start_ns);
    assert(now.open[1] == sh_after.lanes[1].open_start_ns);
    let was = board_of(sh, e.tracker);
    assert(was.blocks[0] == sh.lanes[0].blocks@);
    assert(was.blocks[1] == sh.lanes[1].blocks@);
    assert(was.open[0] == sh.lanes[0].open_start_ns);
    assert(was.open[1] == sh.lanes[1].open_start_ns);
}

/// The board of a session is what its lanes and its records hold.
pub proof fn law_board_is_what_is_shown(sh: Shared, e: EngineState)
    ensures
        board_of(sh, e.tracker) == (Board {
            open: seq![sh.lanes[0].open_start_ns, sh.lanes[1].open_start_ns],
            blocks: seq![sh.lanes[0].blocks@, sh.lanes[1].blocks@],
            scene: board_of(sh, e.tracker).scene,
        }),
        board_of(sh, e.tracker).scene.turns == sh.turns@,
        board_of(sh, e.tracker).scene.interruptions == sh.interruptions@,
        board_of(sh, e.tracker).scene.tracker == e.tracker,
{
}

/// A batch is taken as it was delivered.
pub proof fn law_batch_is_taken_as_delivered(b: &LaneBatch)
    ensures
        batch_of(Some(b)) == Some(b@),
        batch_of(None) is None,
        b@.samples == b.samples@,
        b@.det == b.det@,
        b@.level_db == b.level_db,
        b@.window == b.window,
        b@.fine_samples == b.fine_samples,
        b@.amp_threshold == b.amp_threshold,
        b@.levels == b.levels@,
{
}

/// A batch is acceptable with as many samples for detection as were captured, as
/// far as they can be counted, and a level for each window that they complete.
pub proof fn law_acceptable_batches(e: EngineState, lane: usize, b: LaneBatch)
    requires
        lane < 2,
        b.samples@.len() == b.det@.len(),
        e.lanes[lane as int].consumed + b.samples@.len() <= u64::MAX,
        b.levels@.len() == e.lanes[lane as int].segmenter.windows_in(b.det@.len(), b.window),
    ensures
        e.accepts(lane, b),
{
}

/// What is known of a lane is what its stream left.
pub proof fn law_lane_is_what_is_kept_of_it(p: LaneProc)
    ensures
        p@.gen == p.gen,
        p@.timemap == p.timemap@,
        p@.segmenter == p.segmenter,
        p@.consumed == p.consumed,
        p@.bin == p.bin,
        p@.wav_pending == p.wav_pending,
        p@.seen_device_changes == p.seen_device_changes,
{
}

/// The tick that finds a session stopped ends it: every block in progress is
/// finished by its lane's settings, no speech region and no recording is left,
/// and from then on no session runs.
pub proof fn law_stopped_session_is_ended(
    e: EngineState,
    sh: Shared,
    e_after: EngineState,
    sh_after: Shared,
    t: Transition,
    now_ns: u64,
)
    requires
        e.wf(),
        tick_begun(e, sh, e_after, sh_after, t, now_ns),
        t is Stopped,
        forall|k: int|
            0 <= k < 2 && (#[trigger] e.lanes[k]).segmenter.active is Some
                ==> e.lanes[k].segmenter.active->0.open_ns
                <= e.lanes[k].segmenter.active->0.last_above_ns,
    ensures
        !e_after.was_running,
        e_after.lanes[0].segmenter.active is None,
        e_after.lanes[1].segmenter.active is None,
        !e_after.lanes[0].wav_pending,
        !e_after.lanes[1].wav_pending,
        e_after.speech.open_ns is None,
        e.speech.open_ns is Some ==> sh_after.lanes[0].speech_open_ns is None,
        sh_after.lanes[0].blocks@ == finished(
            sh.lanes[0].blocks@,
            sh.lanes[0].open_start_ns,
            e.lanes[0].segmenter.active,
            sh.cfg.mic_segmenter.min_block_ms,
        ),
        sh_after.lanes[1].blocks@ == finished(
            sh.lanes[1].blocks@,
            sh.lanes[1].open_start_ns,
            e.lanes[1].segmenter.active,
            sh.cfg.sys_segmenter.min_block_ms,
        ),
{
    let ended = EngineState { was_running: false, queue: Seq::empty(), ..e };
    assert(ended.wf());
    law_session_end_keeps_long_blocks(ended, sh, e_after, sh_after, now_ns);
    law_session_end_leaves_the_rest(ended, sh, e_after, sh_after, now_ns);
}

/// What the end of a session reports of a block in progress reaches the turns: a
/// lane whose block lasted the minimum closes, any other is cancelled, and where
/// only one lane has a block in progress that edge is all there is.
pub proof fn law_session_end_reaches_the_turns(
    e: EngineState,
    sh: Shared,
    e_after: EngineState,
    sh_after: Shared,
    now_ns: u64,
    lane: usize,
)
    requires
        e.wf(),
        lane < 2,
        session_wrapped_up(e, sh, e_after, sh_after, now_ns),
        e.lanes[1 - lane].segmenter.active is None,
        e.lanes[lane as int].segmenter.active is Some,
        e.lanes[lane as int].segmenter.active->0.open_ns
            <= e.lanes[lane as int].segmenter.active->0.last_above_ns,
    ensures
        ({
            let b = e.lanes[lane as int].segmenter.active->0;
            let min_ms = if lane == 0 {
                sh.cfg.mic_segmenter.min_block_ms
            } else {
                sh.cfg.sys_segmenter.min_block_ms
            };
            let edge = if b.last_above_ns - b.open_ns >= min_ms * 1_000_000 {
                SegEvent::Close { t_ns: b.last_above_ns }
            } else {
                SegEvent::Cancel
            };
            let scene = scene_after(
                Scene {
                    tracker: e.tracker,
                    turns: sh.turns@,
                    interruptions: sh.interruptions@,
                },
                lane,
                edge,
                sh.cfg.merge_gap_ms,
            );
            &&& e_after.tracker == scene.tracker
            &&& sh_after.turns@ == scene.turns
            &&& sh_after.interruptions@ == scene.interruptions
        }),
{
    let edges = e.closing_edges(sh.cfg, now_ns);
    assert(edges =~= seq![edges[0]]);
    reveal_with_fuel(time_ordered, 2);
    reveal_with_fuel(put_in, 2);
    reveal_with_fuel(board_after, 2);
    assert(edges.drop_last() =~= Seq::empty());
    assert(time_ordered(edges) =~= edges);
    assert(board_of(sh_after, e_after.tracker).scene == board_after(
        board_of(sh, e.tracker),
        edges,
        sh.cfg.merge_gap_ms,
    ).scene);
}

/// What each stream delivered is processed, the system lane's before the mic's,
/// and shown on its own lane.
pub proof fn law_both_streams_are_processed(
    e: EngineState,
    sh: Shared,
    e_after: EngineState,
    sh_after: Shared,
    sys: Option<Batch>,
    mic: Option<Batch>,
    now_ns: u64,
    sys_time: spec_fn(u64) -> u64,
    mic_time: spec_fn(u64) -> u64,
)
    requires
        lanes_taken(e, sh, e_after, sh_after, sys, mic, now_ns, sys_time, mic_time),
    ensures
        sys is Some && mic is None ==> e_after == batch_processed(
            e,
            1,
            sh,
            sys->0,
            now_ns,
            sys_time,
        ),
        sys is None && mic is Some ==> e_after == batch_processed(
            e,
            0,
            sh,
            mic->0,
            now_ns,
            mic_time,
        ),
        sys is Some && mic is Some ==> e_after == batch_processed(
            batch_processed(e, 1, sh, sys->0, now_ns, sys_time),
            0,
            sh,
            mic->0,
            now_ns,
            mic_time,
        ),
        sys is Some ==> lane_shown(e, 1, sh, sys->0, sys_time, sh_after.lanes[1]),
        mic is Some ==> lane_shown(e, 0, sh, mic->0, mic_time, sh_after.lanes[0]),
{
}

/// Every edge of classified speech is drawn.
pub proof fn law_speech_edges_are_drawn(
    e: EngineState,
    sh: Shared,
    e_after: EngineState,
    sh_after: Shared,
    chunks: Seq<ChunkProb>,
    time: spec_fn(u64) -> u64,
)
    requires
        speech_taken(e, sh, e_after, sh_after, chunks, time),
    ensures
        (sh_after.lanes[0].speech_open_ns, sh_after.lanes[0].speech@) == speech_after(
            sh.lanes[0].speech_open_ns,
            sh.lanes[0].speech@,
            followed(e.speech, chunk_times(chunks, sh.session_start_ns, time)).1,
        ),
{
}

} // verus!
