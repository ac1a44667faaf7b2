//! What holds of the analysis as a whole.

use vstd::prelude::*;
use crate::analysis::bins::{aligned, law_levels_stay_aligned, Bin};
use crate::analysis::engine::{
    batch_binned, batch_processed, batch_segmented, both_processed, closing_edge, lane_gate,
    session_wrapped_up, Batch, EngineState,
};
use crate::analysis::events::{
    board_after, board_of, put_in, stamped, time_ordered, Board, TickEvent,
};
use crate::analysis::lane::{binned, fine_index, Binning, Lane};
use crate::analysis::segmenter::{block_end, sized, Run, SegEvent, Segmentation};
use crate::analysis::segmenter_laws::{law_gate_holds_block_end, law_gate_silences};
use crate::analysis::turn_laws::{coherent, empty_scene, law_event_keeps_coherence};
use crate::audio::{LANE_MIC, LANE_SYS};
use crate::config::Config;
use crate::scalar::Scalar32;
use crate::session::Shared;

verus! {

/// Outside a session nothing is recorded: a batch only moves the stream along
/// and adapts the threshold.
pub proof fn law_idle_audio_leaves_no_trace(
    e: EngineState,
    lane: usize,
    sh: Shared,
    batch: Batch,
    now_ns: u64,
    time: spec_fn(u64) -> u64,
)
    requires
        e.wf(),
        lane < 2,
        !e.was_running,
    ensures
        ({
            let after = batch_processed(e, lane, sh, batch, now_ns, time);
            after == e.with_lane(
                lane,
                Lane {
                    segmenter: after.lanes[lane as int].segmenter,
                    consumed: (e.lanes[lane as int].consumed + batch.samples.len()) as u64,
                    ..e.lanes[lane as int]
                },
            )
        }),
{
    let after = batch_processed(e, lane, sh, batch, now_ns, time);
    assert(after =~= e.with_lane(
        lane,
        Lane {
            segmenter: after.lanes[lane as int].segmenter,
            consumed: (e.lanes[lane as int].consumed + batch.samples.len()) as u64,
            ..e.lanes[lane as int]
        },
    ));
}

/// The echo gate never touches the system lane, and touches the mic lane only
/// within a session and where it is enabled.
pub proof fn law_gate_is_for_the_mic(e: EngineState, lane: usize, cfg: Config, t_ns: u64)
    requires
        lane != LANE_MIC || !cfg.echo_gate.enabled || !e.was_running,
    ensures
        !lane_gate(e, lane, cfg)(t_ns),
{
}

/// The echo of the bot opens no mic block and keeps none alive: where the echo
/// gate is shut for the whole batch, an idle mic reports no edge, and a block in
/// progress at most ends, where it ended without the batch.
pub proof fn law_echo_is_gated_out(
    e: EngineState,
    sh: Shared,
    batch: Batch,
    now_ns: u64,
    time: spec_fn(u64) -> u64,
)
    requires
        e.wf(),
        e.was_running,
        sh.cfg.echo_gate.enabled,
        e.lanes[0].timemap.ready,
        e.lanes[0].consumed + batch.det.len() <= u64::MAX,
        forall|n: u64|
            e.lanes[0].consumed < n <= e.lanes[0].consumed + batch.det.len() ==> e.gate.shut(
                #[trigger] time(n),
                sh.cfg.echo_gate.tail_ms,
            ),
    ensures
        ({
            let after = batch_processed(e, LANE_MIC, sh, batch, now_ns, time);
            let active = e.lanes[0].segmenter.active;
            ||| after.queue == e.queue && after.lanes[0].segmenter.active == active
            ||| active is Some && after.lanes[0].segmenter.active is None && after.queue == e.queue
                + stamped(LANE_MIC, seq![block_end(active->0, sh.cfg.mic_segmenter)], now_ns)
        }),
{
    let p = e.lanes[0];
    let run = Run {
        base_sample: p.consumed,
        amp_threshold: batch.amp_threshold,
        levels: batch.levels,
        cfg: sh.cfg.segmenter_of(LANE_MIC),
        time,
        gated: lane_gate(e, LANE_MIC, sh.cfg),
    };
    let start = Segmentation {
        seg: sized(p.segmenter, batch.window, p.consumed),
        events: Seq::empty(),
        used: 0,
    };
    let end = batch_segmented(e, LANE_MIC, sh.cfg, batch, time);
    if p.segmenter.active is None {
        law_gate_silences(start, batch.det, run);
        assert(end.events =~= Seq::empty());
    } else {
        law_gate_holds_block_end(start, batch.det, run);
        let ended = block_end(p.segmenter.active->0, run.cfg);
        assert(Seq::<SegEvent>::empty().push(ended) =~= seq![ended]);
    }
    assert(e.queue + stamped(LANE_MIC, Seq::empty(), now_ns) =~= e.queue);
}

/// Fresh bot audio gates the mic within the same tick: the mic is held against
/// the echo gate as the system lane's batch leaves it.
pub proof fn law_system_lane_goes_first(
    e: EngineState,
    sh: Shared,
    sys: Batch,
    mic: Batch,
    now_ns: u64,
    sys_time: spec_fn(u64) -> u64,
    mic_time: spec_fn(u64) -> u64,
)
    requires
        e.wf(),
        e.was_running,
        e.lanes[0].timemap.ready,
        e.lanes[1].timemap.ready,
    ensures
        ({
            let heard = batch_segmented(e, LANE_SYS, sh.cfg, sys, sys_time).events;
            let gated = EngineState { gate: e.gate.after_all(heard), ..e };
            let edges = batch_segmented(gated, LANE_MIC, sh.cfg, mic, mic_time).events;
            both_processed(e, sh, Some(sys), Some(mic), now_ns, sys_time, mic_time).queue
                == e.queue + stamped(LANE_SYS, heard, now_ns) + stamped(LANE_MIC, edges, now_ns)
        }),
{
    let heard = batch_segmented(e, LANE_SYS, sh.cfg, sys, sys_time).events;
    let gated = EngineState { gate: e.gate.after_all(heard), ..e };
    let after = batch_processed(e, LANE_SYS, sh, sys, now_ns, sys_time);
    assert(lane_gate(after, LANE_MIC, sh.cfg) =~= lane_gate(gated, LANE_MIC, sh.cfg));
}

/// The waveform is drawn from the samples as captured: what the detection makes
/// of them does not show in it.
pub proof fn law_waveform_is_raw(
    e: EngineState,
    lane: usize,
    sh: Shared,
    batch: Batch,
    filtered: Seq<Scalar32>,
    time: spec_fn(u64) -> u64,
)
    ensures
        batch_binned(e, lane, sh, batch, time) == batch_binned(
            e,
            lane,
            sh,
            (Batch { det: filtered, ..batch }),
            time,
        ),
{
}

/// A batch keeps every level of the waveform aligned.
pub proof fn law_waveform_stays_aligned(
    b: Binning,
    samples: Seq<Scalar32>,
    base: u64,
    fine_samples: usize,
    session_start_ns: u64,
    time: spec_fn(u64) -> u64,
)
    requires
        aligned(b.levels),
    ensures
        aligned(binned(b, samples, base, fine_samples, session_start_ns, time).levels),
    decreases samples.len(),
{
    if samples.len() > 0 {
        law_waveform_stays_aligned(
            b,
            samples.drop_last(),
            base,
            fine_samples,
            session_start_ns,
            time,
        );
        let before = binned(b, samples.drop_last(), base, fine_samples, session_start_ns, time);
        let bin = before.bin.with(samples.last());
        law_levels_stay_aligned(
            before.levels,
            fine_index(time(bin.start_sample), session_start_ns) as nat,
            Bin { min: bin.min, max: bin.max },
        );
    }
}

/// Turns and interruptions stay coherent whatever edges a tick applies.
pub proof fn law_board_stays_coherent(b: Board, events: Seq<TickEvent>, merge_gap_ms: u64)
    requires
        coherent(b.scene),
        b.scene.turns.len() + events.len() < usize::MAX,
        b.scene.interruptions.len() + events.len() < usize::MAX,
    ensures
        coherent(board_after(b, events, merge_gap_ms).scene),
        board_after(b, events, merge_gap_ms).scene.turns.len() <= b.scene.turns.len()
            + events.len(),
        board_after(b, events, merge_gap_ms).scene.interruptions.len()
            <= b.scene.interruptions.len() + events.len(),
    decreases events.len(),
{
    if events.len() > 0 {
        law_board_stays_coherent(b, events.drop_last(), merge_gap_ms);
        let before = board_after(b, events.drop_last(), merge_gap_ms);
        law_event_keeps_coherence(
            before.scene,
            events.last().lane,
            events.last().event,
            merge_gap_ms,
        );
    }
}

/// Activity that began before a session does not leak into it, but the threshold
/// adapted while idle survives its start.
pub proof fn law_session_starts_clean(e: EngineState, record: bool, lane: int)
    requires
        e.wf(),
        0 <= lane < 2,
    ensures
        ({
            let after = e.session_started(record);
            &&& after.wf()
            &&& after.lanes[lane].segmenter.active is None
            &&& after.lanes[lane].segmenter.effective_threshold_db
                == e.lanes[lane].segmenter.effective_threshold_db
            &&& after.lanes[lane].timemap == e.lanes[lane].timemap
            &&& after.lanes[lane].bin.count == 0
        }),
{
}

/// A session starts out coherent.
pub proof fn law_new_session_is_coherent(sh: Shared)
    requires
        sh.has_no_records(),
    ensures
        coherent(board_of(sh, EngineState::fresh().tracker).scene),
{
    assert(board_of(sh, EngineState::fresh().tracker).scene =~= empty_scene());
}

/// The lane draws a block in progress exactly while its segmenter is in one.
pub open spec fn in_step(e: EngineState, sh: Shared, lane: int) -> bool {
    e.lanes[lane].segmenter.active is Some <==> sh.lanes[lane].open_start_ns is Some
}

/// The end of a session ends every block.
pub proof fn law_session_end_ends_blocks(
    e: EngineState,
    sh: Shared,
    e_after: EngineState,
    sh_after: Shared,
    now_ns: u64,
)
    requires
        e.wf(),
        in_step(e, sh, 0),
        in_step(e, sh, 1),
        session_wrapped_up(e, sh, e_after, sh_after, now_ns),
    ensures
        sh_after.lanes[0].open_start_ns is None,
        sh_after.lanes[1].open_start_ns is None,
        e_after.lanes[0].segmenter.active is None,
        e_after.lanes[1].segmenter.active is None,
{
    let sys = closing_edge(e.lanes[1].segmenter, sh.cfg.sys_segmenter);
    let mic = closing_edge(e.lanes[0].segmenter, sh.cfg.mic_segmenter);
    let edges = e.closing_edges(sh.cfg, now_ns);
    let b = board_of(sh, e.tracker);
    let gap = sh.cfg.merge_gap_ms;
    assert(sys.len() <= 1 && mic.len() <= 1);
    reveal_with_fuel(time_ordered, 3);
    reveal_with_fuel(put_in, 3);
    reveal_with_fuel(board_after, 3);
    let sorted = time_ordered(edges);
    assert(board_of(sh_after, e_after.tracker).open == board_after(b, sorted, gap).open);
    assert(board_after(b, sorted, gap).open =~= seq![None, None]) by {
        if sys.len() == 1 && mic.len() == 1 {
            let s = edges[0];
            let m = edges[1];
            assert(s.lane == LANE_SYS && m.lane == LANE_MIC);
            assert(edges =~= seq![s, m]);
            assert(edges.drop_last() =~= seq![s]);
            assert(seq![s].drop_last() =~= Seq::empty());
            assert(time_ordered(seq![s]) =~= seq![s]);
            assert(sorted =~= seq![s, m] || sorted =~= seq![m, s]);
            assert(sorted.drop_last().drop_last() =~= Seq::empty());
        } else if sys.len() == 1 {
            assert(edges =~= seq![edges[0]]);
            assert(sorted =~= edges);
            assert(sorted.drop_last() =~= Seq::empty());
        } else if mic.len() == 1 {
            assert(edges =~= seq![edges[0]]);
            assert(sorted =~= edges);
            assert(sorted.drop_last() =~= Seq::empty());
        } else {
            assert(edges =~= Seq::empty());
        }
    }
    assert(board_of(sh_after, e_after.tracker).open[0] is None);
    assert(board_of(sh_after, e_after.tracker).open[1] is None);
}

} // verus!
