//! Speech classification is for display only: what is measured does not depend
//! on it.

use vstd::prelude::*;
use crate::analysis::engine::{
    batch_binned, batch_processed, lane_gate, lanes_taken, speech_taken, tap_followed, tick_begun,
    tick_ended, Batch, EngineState, Transition,
};
use crate::analysis::events::board_of;
use crate::analysis::lane::Lane;
use crate::analysis::vad::{ChunkProb, SpeechTrack};
use crate::audio::{SyncEvent, LANE_MIC, LANE_SYS};
use crate::config::Config;
use crate::scalar::Scalar64;
use crate::session::{LaneState, Phase, Shared};

verus! {

/// The engines differ at most in how they track classified speech.
pub open spec fn same_but_speech(a: EngineState, b: EngineState) -> bool {
    a == EngineState { speech: a.speech, vad_failed: a.vad_failed, ..b }
}

/// With the tint on or off, and whatever was classified, a batch is segmented,
/// gated, queued and drawn alike.
proof fn lemma_batch_alike(
    e: EngineState,
    other: EngineState,
    lane: usize,
    sh: Shared,
    sh_other: Shared,
    batch: Batch,
    now_ns: u64,
    time: spec_fn(u64) -> u64,
)
    requires
        lane < 2,
        same_but_speech(e, other),
        sh.cfg == (Config { vad_tint: sh.cfg.vad_tint, ..sh_other.cfg }),
        sh.session_start_ns == sh_other.session_start_ns,
        sh.lanes[lane as int].bins@ == sh_other.lanes[lane as int].bins@,
    ensures
        same_but_speech(
            batch_processed(e, lane, sh, batch, now_ns, time),
            batch_processed(other, lane, sh_other, batch, now_ns, time),
        ),
        batch_binned(e, lane, sh, batch, time) == batch_binned(
            other,
            lane,
            sh_other,
            batch,
            time,
        ),
{
    assert(lane_gate(e, lane, sh.cfg) =~= lane_gate(other, lane, sh_other.cfg));
    assert(same_but_speech(
        batch_processed(e, lane, sh, batch, now_ns, time),
        batch_processed(other, lane, sh_other, batch, now_ns, time),
    ));
}

/// One thing that happens to the engine or to the session.
pub enum Step {
    /// A stream delivers to a lane.
    Attached { lane: usize, gen: u64 },
    /// A buffer of a lane's stream was captured.
    Synced { lane: usize, ev: SyncEvent, rate_moved: bool, candidate: Scalar64 },
    /// The mic's stream was looked at.
    MicChecked,
    TickBegun { now_ns: u64 },
    /// What both streams delivered was processed.
    Processed {
        sys: Option<Batch>,
        mic: Option<Batch>,
        now_ns: u64,
        sys_time: spec_fn(u64) -> u64,
        mic_time: spec_fn(u64) -> u64,
    },
    /// A lane's recording was asked for.
    Recorded { lane: usize },
    TapFollowed { now_ns: u64, device_changes: Option<u64>, failed: bool },
    TickEnded,
    SessionStarted { now_ns: u64, dir: Option<String> },
    SessionStopped { now_ns: u64 },
    SessionPutAway,
    /// Settings were changed; the tint may be switched on or off at any time.
    Configured { cfg: Config },
    /// A classifier is in place.
    ClassifierReady,
    ClassifierBroke { why: String },
    /// Speech was classified.
    Classified { chunks: Seq<ChunkProb>, time: spec_fn(u64) -> u64 },
    Nothing,
}

/// The step is about the classification of speech, or about nothing.
pub open spec fn for_display(step: Step) -> bool {
    step is ClassifierReady || step is ClassifierBroke || step is Classified || step is Nothing
}

/// What a step does, as the contracts of the engine and of the session say it.
pub open spec fn stepped(
    step: Step,
    e: EngineState,
    sh: Shared,
    e_after: EngineState,
    sh_after: Shared,
) -> bool {
    match step {
        Step::Attached { lane, gen } => sh_after == sh && e_after == if gen
            != e.lanes[lane as int].gen {
            e.with_lane(lane, e.lanes[lane as int].restarted(gen))
        } else {
            e
        },
        Step::Synced { lane, ev, rate_moved, candidate } => sh_after == sh && e_after
            == e.with_lane(
            lane,
            Lane {
                timemap: e.lanes[lane as int].timemap.synced(ev, rate_moved, candidate),
                ..e.lanes[lane as int]
            },
        ),
        Step::MicChecked => sh_after == sh && e_after == if e.lanes[0].gen != e.last_mic_gen {
            EngineState {
                last_mic_gen: e.lanes[0].gen,
                speech: SpeechTrack { open_ns: None, last_speech_end_ns: 0 },
                ..e
            }
        } else {
            e
        },
        Step::TickBegun { now_ns } => exists|t: Transition|
            tick_begun(e, sh, e_after, sh_after, t, now_ns),
        Step::Processed { sys, mic, now_ns, sys_time, mic_time } => lanes_taken(
            e,
            sh,
            e_after,
            sh_after,
            sys,
            mic,
            now_ns,
            sys_time,
            mic_time,
        ),
        Step::Recorded { lane } => sh_after == sh && e_after == e.with_lane(
            lane,
            Lane { wav_pending: false, ..e.lanes[lane as int] },
        ),
        Step::TapFollowed { now_ns, device_changes, failed } => tap_followed(
            e,
            sh,
            e_after,
            sh_after,
            now_ns,
            device_changes,
            failed,
        ),
        Step::TickEnded => tick_ended(e, sh, e_after, sh_after),
        Step::SessionStarted { now_ns, dir } => {
            &&& e_after == e
            &&& sh_after.phase == Phase::Running
            &&& sh_after.session_start_ns == now_ns
            &&& sh_after.session_end_ns == 0
            &&& sh_after.session_dir == dir
            &&& sh_after.has_no_records()
            &&& sh_after.same_surroundings(sh)
        },
        Step::SessionStopped { now_ns } => e_after == e && sh_after == if sh.phase
            == Phase::Running {
            Shared { session_end_ns: now_ns, phase: Phase::Stopped, ..sh }
        } else {
            sh
        },
        Step::SessionPutAway => {
            &&& e_after == e
            &&& sh_after.phase == Phase::Idle
            &&& sh_after.session_dir is None
            &&& sh_after.is_clear()
            &&& sh_after.same_surroundings(sh)
        },
        Step::Configured { cfg } => e_after == e && sh_after == (Shared {
            cfg: Config { vad_tint: sh_after.cfg.vad_tint, ..cfg },
            ..sh
        }),
        Step::ClassifierReady => e_after == (EngineState {
            speech: SpeechTrack { open_ns: None, last_speech_end_ns: 0 },
            ..e
        }) && sh_after == (Shared { vad_error: None, ..sh }),
        Step::ClassifierBroke { why } => e_after == (EngineState { vad_failed: true, ..e })
            && sh_after == (Shared { vad_error: Some(why), ..sh }),
        Step::Classified { chunks, time } => speech_taken(e, sh, e_after, sh_after, chunks, time),
        Step::Nothing => e_after == e && sh_after == sh,
    }
}

/// A lane shows the same, classified speech aside.
pub open spec fn lane_alike(a: LaneState, b: LaneState) -> bool {
    &&& a.blocks@ == b.blocks@
    &&& a.open_start_ns == b.open_start_ns
    &&& a.bins@ == b.bins@
    &&& a.level_db == b.level_db
    &&& a.effective_threshold_db == b.effective_threshold_db
    &&& a.last_sample_ns == b.last_sample_ns
}

/// Two sessions have recorded the same, classified speech aside, under settings
/// that differ at most in the tint.
pub open spec fn session_alike(a: Shared, b: Shared) -> bool {
    &&& a.cfg == Config { vad_tint: a.cfg.vad_tint, ..b.cfg }
    &&& a.phase == b.phase
    &&& a.session_start_ns == b.session_start_ns
    &&& a.session_end_ns == b.session_end_ns
    &&& a.session_dir == b.session_dir
    &&& a.turns@ == b.turns@
    &&& a.interruptions@ == b.interruptions@
    &&& a.discontinuities@ == b.discontinuities@
    &&& lane_alike(a.lanes[0], b.lanes[0])
    &&& lane_alike(a.lanes[1], b.lanes[1])
}

/// The states that a run goes through, each a step from the one before it.
pub open spec fn is_run(states: Seq<(EngineState, Shared)>, steps: Seq<Step>) -> bool {
    &&& states.len() == steps.len() + 1
    &&& forall|i: int|
        0 <= i < steps.len() ==> stepped(
            #[trigger] steps[i],
            states[i].0,
            states[i].1,
            states[i + 1].0,
            states[i + 1].1,
        )
}

/// The same happens in both runs, but for the classification of speech: one may
/// classify where the other does not.
pub open spec fn same_but_display(a: Seq<Step>, b: Seq<Step>) -> bool {
    &&& a.len() == b.len()
    &&& forall|i: int|
        0 <= i < a.len() ==> #[trigger] a[i] == #[trigger] b[i] || for_display(a[i])
            && for_display(b[i])
}

proof fn lemma_display_step(
    step: Step,
    e: EngineState,
    sh: Shared,
    e_after: EngineState,
    sh_after: Shared,
)
    requires
        for_display(step),
        stepped(step, e, sh, e_after, sh_after),
    ensures
        same_but_speech(e_after, e),
        session_alike(sh_after, sh),
{
}

/// Equal boards have equal parts.
proof fn lemma_boards_alike(a: (EngineState, Shared), b: (EngineState, Shared))
    ensures
        board_of(a.1, a.0.tracker) == board_of(b.1, b.0.tracker) ==> {
            &&& a.0.tracker == b.0.tracker
            &&& a.1.turns@ == b.1.turns@
            &&& a.1.interruptions@ == b.1.interruptions@
            &&& a.1.lanes[0].blocks@ == b.1.lanes[0].blocks@
            &&& a.1.lanes[1].blocks@ == b.1.lanes[1].blocks@
            &&& a.1.lanes[0].open_start_ns == b.1.lanes[0].open_start_ns
            &&& a.1.lanes[1].open_start_ns == b.1.lanes[1].open_start_ns
        },
{
    let x = board_of(a.1, a.0.tracker);
    let y = board_of(b.1, b.0.tracker);
    if x == y {
        assert(x.open[0] == y.open[0] && x.open[1] == y.open[1]);
        assert(x.blocks[0] == y.blocks[0] && x.blocks[1] == y.blocks[1]);
    }
}

proof fn lemma_begun_alike(
    step: Step,
    a: (EngineState, Shared),
    a_after: (EngineState, Shared),
    b: (EngineState, Shared),
    b_after: (EngineState, Shared),
)
    requires
        step is TickBegun,
        stepped(step, a.0, a.1, a_after.0, a_after.1),
        stepped(step, b.0, b.1, b_after.0, b_after.1),
        same_but_speech(a.0, b.0),
        session_alike(a.1, b.1),
    ensures
        same_but_speech(a_after.0, b_after.0),
        session_alike(a_after.1, b_after.1),
{
    assert(board_of(a.1, a.0.tracker) == board_of(b.1, b.0.tracker));
    lemma_boards_alike(a_after, b_after);
}

proof fn lemma_ended_alike(
    step: Step,
    a: (EngineState, Shared),
    a_after: (EngineState, Shared),
    b: (EngineState, Shared),
    b_after: (EngineState, Shared),
)
    requires
        step is TickEnded,
        stepped(step, a.0, a.1, a_after.0, a_after.1),
        stepped(step, b.0, b.1, b_after.0, b_after.1),
        same_but_speech(a.0, b.0),
        session_alike(a.1, b.1),
    ensures
        same_but_speech(a_after.0, b_after.0),
        session_alike(a_after.1, b_after.1),
{
    assert(board_of(a.1, a.0.tracker) == board_of(b.1, b.0.tracker));
    lemma_boards_alike(a_after, b_after);
}

proof fn lemma_processed_alike(
    step: Step,
    a: (EngineState, Shared),
    a_after: (EngineState, Shared),
    b: (EngineState, Shared),
    b_after: (EngineState, Shared),
)
    requires
        step is Processed,
        stepped(step, a.0, a.1, a_after.0, a_after.1),
        stepped(step, b.0, b.1, b_after.0, b_after.1),
        same_but_speech(a.0, b.0),
        session_alike(a.1, b.1),
    ensures
        same_but_speech(a_after.0, b_after.0),
        session_alike(a_after.1, b_after.1),
{
    if let Step::Processed { sys, mic, now_ns, sys_time, mic_time } = step {
        let (mut x, mut y) = (a.0, b.0);
        if let Some(batch) = sys {
            lemma_batch_alike(x, y, LANE_SYS, a.1, b.1, batch, now_ns, sys_time);
            x = batch_processed(x, LANE_SYS, a.1, batch, now_ns, sys_time);
            y = batch_processed(y, LANE_SYS, b.1, batch, now_ns, sys_time);
        }
        if let Some(batch) = mic {
            lemma_batch_alike(x, y, LANE_MIC, a.1, b.1, batch, now_ns, mic_time);
            lemma_batch_alike(a.0, b.0, LANE_MIC, a.1, b.1, batch, now_ns, mic_time);
        }
    }
}

proof fn lemma_tap_alike(
    step: Step,
    a: (EngineState, Shared),
    a_after: (EngineState, Shared),
    b: (EngineState, Shared),
    b_after: (EngineState, Shared),
)
    requires
        step is TapFollowed,
        stepped(step, a.0, a.1, a_after.0, a_after.1),
        stepped(step, b.0, b.1, b_after.0, b_after.1),
        same_but_speech(a.0, b.0),
        session_alike(a.1, b.1),
    ensures
        same_but_speech(a_after.0, b_after.0),
        session_alike(a_after.1, b_after.1),
{
}

proof fn lemma_phase_alike(
    step: Step,
    a: (EngineState, Shared),
    a_after: (EngineState, Shared),
    b: (EngineState, Shared),
    b_after: (EngineState, Shared),
)
    requires
        step is SessionStarted || step is SessionStopped || step is SessionPutAway
            || step is Configured,
        stepped(step, a.0, a.1, a_after.0, a_after.1),
        stepped(step, b.0, b.1, b_after.0, b_after.1),
        same_but_speech(a.0, b.0),
        session_alike(a.1, b.1),
    ensures
        same_but_speech(a_after.0, b_after.0),
        session_alike(a_after.1, b_after.1),
{
}

proof fn lemma_stream_alike(
    step: Step,
    a: (EngineState, Shared),
    a_after: (EngineState, Shared),
    b: (EngineState, Shared),
    b_after: (EngineState, Shared),
)
    requires
        step is Attached || step is Synced || step is MicChecked || step is Recorded,
        stepped(step, a.0, a.1, a_after.0, a_after.1),
        stepped(step, b.0, b.1, b_after.0, b_after.1),
        same_but_speech(a.0, b.0),
        session_alike(a.1, b.1),
    ensures
        same_but_speech(a_after.0, b_after.0),
        session_alike(a_after.1, b_after.1),
{
}

proof fn lemma_same_step(
    step: Step,
    a: (EngineState, Shared),
    a_after: (EngineState, Shared),
    b: (EngineState, Shared),
    b_after: (EngineState, Shared),
)
    requires
        !for_display(step),
        stepped(step, a.0, a.1, a_after.0, a_after.1),
        stepped(step, b.0, b.1, b_after.0, b_after.1),
        same_but_speech(a.0, b.0),
        session_alike(a.1, b.1),
    ensures
        same_but_speech(a_after.0, b_after.0),
        session_alike(a_after.1, b_after.1),
{
    match step {
        Step::Processed { .. } => lemma_processed_alike(step, a, a_after, b, b_after),
        Step::TickBegun { .. } => lemma_begun_alike(step, a, a_after, b, b_after),
        Step::TickEnded => lemma_ended_alike(step, a, a_after, b, b_after),
        Step::TapFollowed { .. } => lemma_tap_alike(step, a, a_after, b, b_after),
        Step::SessionStarted { .. } => lemma_phase_alike(step, a, a_after, b, b_after),
        Step::SessionStopped { .. } => lemma_phase_alike(step, a, a_after, b, b_after),
        Step::SessionPutAway => lemma_phase_alike(step, a, a_after, b, b_after),
        Step::Configured { .. } => lemma_phase_alike(step, a, a_after, b, b_after),
        _ => lemma_stream_alike(step, a, a_after, b, b_after),
    }
}

/// With the tint on or off, and whatever is classified, the metrics are
/// identical: two runs over the same audio, of any length, that start alike end
/// with the same blocks, waveforms, turns and interruptions.
pub proof fn law_tint_changes_no_metric(
    a: Seq<(EngineState, Shared)>,
    a_steps: Seq<Step>,
    b: Seq<(EngineState, Shared)>,
    b_steps: Seq<Step>,
)
    requires
        is_run(a, a_steps),
        is_run(b, b_steps),
        same_but_display(a_steps, b_steps),
        same_but_speech(a[0].0, b[0].0),
        session_alike(a[0].1, b[0].1),
    ensures
        same_but_speech(a.last().0, b.last().0),
        session_alike(a.last().1, b.last().1),
    decreases a_steps.len(),
{
    let n = a_steps.len() as int;
    if n > 0 {
        let (a0, b0) = (a.drop_last(), b.drop_last());
        let (s0, t0) = (a_steps.drop_last(), b_steps.drop_last());
        assert(is_run(a0, s0)) by {
            assert forall|i: int| 0 <= i < s0.len() implies stepped(
                #[trigger] s0[i],
                a0[i].0,
                a0[i].1,
                a0[i + 1].0,
                a0[i + 1].1,
            ) by {
                assert(a_steps[i] == s0[i]);
            }
        }
        assert(is_run(b0, t0)) by {
            assert forall|i: int| 0 <= i < t0.len() implies stepped(
                #[trigger] t0[i],
                b0[i].0,
                b0[i].1,
                b0[i + 1].0,
                b0[i + 1].1,
            ) by {
                assert(b_steps[i] == t0[i]);
            }
        }
        assert(same_but_display(s0, t0)) by {
            assert forall|i: int| 0 <= i < s0.len() implies #[trigger] s0[i] == #[trigger] t0[i]
                || for_display(s0[i]) && for_display(t0[i]) by {
                assert(a_steps[i] == s0[i] && b_steps[i] == t0[i]);
            }
        }
        law_tint_changes_no_metric(a0, s0, b0, t0);
        let (x, y) = (a_steps[n - 1], b_steps[n - 1]);
        if for_display(x) && for_display(y) {
            lemma_display_step(x, a[n - 1].0, a[n - 1].1, a[n].0, a[n].1);
            lemma_display_step(y, b[n - 1].0, b[n - 1].1, b[n].0, b[n].1);
        } else {
            lemma_same_step(x, a[n - 1], a[n], b[n - 1], b[n]);
        }
    }
}

} // verus!
