//! The analysis of both lanes, one tick at a time.
//!
//! A tick takes in what the capture streams delivered since the last one. The
//! caller reads the streams, measures levels and runs the speech classifier;
//! everything that is decided or recorded is decided and recorded here.

use vstd::prelude::*;
use vstd::string::StringExecFns;
use crate::analysis::echo_gate::{EchoGate, Gate};
use crate::analysis::events::{
    apply_events, apply_speech_events, board_after, board_of, queue_events, same_but_blocks,
    speech_after, stamped, time_ordered, TickEvent,
};
use crate::analysis::lane::{binned, caught_up, Binning, Lane, LaneProc};
use crate::analysis::segmenter::{
    block_end, computes, segmented, sized, Run, SegEvent, Segmentation, Segmenter, WindowLevel,
};
use crate::analysis::timemap::TimeMap;
use crate::analysis::turns::{fresh_tracker, TrackerState, TurnTracker};
use crate::analysis::vad::{followed, region_end, ChunkProb, SpeechTrack, VadEvent};
use crate::audio::{SyncEvent, LANE_MIC, LANE_SYS};
use crate::config::{seg_cfg, Config, SegmenterConfig};
use crate::scalar::{Scalar32, Scalar64};
use crate::session::{LaneState, Phase, Shared, SysStatus};

verus! {

/// What an [`Engine`] holds.
#[verifier::ext_equal]
pub struct EngineState {
    pub lanes: Seq<Lane>,
    pub tracker: TrackerState,
    pub was_running: bool,
    pub gate: Gate,
    pub speech: SpeechTrack,
    pub vad_failed: bool,
    pub last_mic_gen: u64,
    pub queue: Seq<TickEvent>,
}

/// The analysis of a session.
pub struct Engine {
    procs: [LaneProc; 2],
    tracker: TurnTracker,
    was_running: bool,
    gate: EchoGate,
    speech_track: SpeechTrack,
    vad_failed: bool,
    last_mic_gen: u64,
    queue: Vec<TickEvent>,
}

impl View for Engine {
    type V = EngineState;

    closed spec fn view(&self) -> EngineState {
        EngineState {
            lanes: seq![self.procs[0]@, self.procs[1]@],
            tracker: self.tracker@,
            was_running: self.was_running,
            gate: self.gate@,
            speech: self.speech_track,
            vad_failed: self.vad_failed,
            last_mic_gen: self.last_mic_gen,
            queue: self.queue@,
        }
    }
}

impl EngineState {
    pub open spec fn wf(self) -> bool {
        &&& self.lanes.len() == 2
        &&& self.lanes[0].wf()
        &&& self.lanes[1].wf()
        &&& forall|i: int| 0 <= i < self.queue.len() ==> (#[trigger] self.queue[i]).lane < 2
    }

    /// The batch continues the lane's stream: as many samples for detection as
    /// were captured, and a level for each window that they complete.
    pub open spec fn accepts(self, lane: usize, batch: LaneBatch) -> bool {
        let p = self.lanes[lane as int];
        &&& batch.samples@.len() == batch.det@.len()
        &&& p.consumed + batch.samples@.len() <= u64::MAX
        &&& p.timemap.ready ==> batch.levels@.len() == p.segmenter.windows_in(
            batch.det@.len(),
            batch.window,
        )
    }

    /// Nothing has been heard.
    pub open spec fn fresh() -> EngineState {
        EngineState {
            lanes: seq![Lane::fresh(), Lane::fresh()],
            tracker: fresh_tracker(),
            was_running: false,
            gate: Gate::open_gate(),
            speech: SpeechTrack { open_ns: None, last_speech_end_ns: 0 },
            vad_failed: false,
            last_mic_gen: 0,
            queue: Seq::empty(),
        }
    }

    /// The engine with one lane changed.
    pub open spec fn with_lane(self, lane: usize, l: Lane) -> EngineState {
        EngineState { lanes: self.lanes.update(lane as int, l), ..self }
    }

    /// The engine at the start of a session. `record` tells whether the lanes
    /// are to be recorded.
    pub open spec fn session_started(self, record: bool) -> EngineState {
        EngineState {
            lanes: seq![
                Lane { wav_pending: record, ..self.lanes[0].session_started() },
                Lane { wav_pending: record, ..self.lanes[1].session_started() },
            ],
            tracker: fresh_tracker(),
            was_running: true,
            gate: Gate::open_gate(),
            speech: SpeechTrack { open_ns: None, last_speech_end_ns: 0 },
            vad_failed: false,
            queue: Seq::empty(),
            ..self
        }
    }

    /// The edges that the end of a session gives: blocks in progress end.
    pub open spec fn closing_edges(self, cfg: Config, now_ns: u64) -> Seq<TickEvent> {
        stamped(LANE_SYS, closing_edge(self.lanes[1].segmenter, cfg.sys_segmenter), now_ns)
            + stamped(LANE_MIC, closing_edge(self.lanes[0].segmenter, cfg.mic_segmenter), now_ns)
    }

    /// The edge that the end of a session gives to classified speech.
    pub open spec fn closing_speech(self) -> Seq<VadEvent> {
        match self.speech.open_ns {
            Some(open_ns) => seq![region_end(open_ns, self.speech.last_speech_end_ns)],
            None => Seq::empty(),
        }
    }
}

/// The end of a lane's block in progress, if there is one.
pub open spec fn closing_edge(seg: Segmenter, cfg: SegmenterConfig) -> Seq<SegEvent> {
    match seg.active {
        Some(b) => seq![block_end(b, cfg)],
        None => Seq::empty(),
    }
}

/// What a tick found of the session.
#[derive(Clone, Copy, Debug, PartialEq, Eq, Structural)]
pub enum Transition {
    Steady,
    /// A session has just started. `record` tells whether it is recorded.
    Started { record: bool },
    /// The session has just stopped.
    Stopped,
}

/// What a stream delivered since the last tick, and what was measured of it.
pub struct LaneBatch<'a> {
    /// The samples as captured.
    pub samples: &'a [Scalar32],
    /// The same samples as the detection sees them, band-limited or not.
    pub det: &'a [Scalar32],
    /// Level of the latest part of the detection signal.
    pub level_db: Scalar32,
    /// Samples per detection window at the stream's rate.
    pub window: usize,
    /// Samples per waveform bin at the stream's rate.
    pub fine_samples: usize,
    /// Amplitude of the lane's threshold.
    pub amp_threshold: Scalar32,
    /// What was measured of the windows that these samples complete.
    pub levels: &'a [WindowLevel],
}

/// The batch in mathematical form.
pub struct Batch {
    pub samples: Seq<Scalar32>,
    pub det: Seq<Scalar32>,
    pub level_db: Scalar32,
    pub window: usize,
    pub fine_samples: usize,
    pub amp_threshold: Scalar32,
    pub levels: Seq<WindowLevel>,
}

impl<'a> View for LaneBatch<'a> {
    type V = Batch;

    open spec fn view(&self) -> Batch {
        Batch {
            samples: self.samples@,
            det: self.det@,
            level_db: self.level_db,
            window: self.window,
            fine_samples: self.fine_samples,
            amp_threshold: self.amp_threshold,
            levels: self.levels@,
        }
    }
}

/// Whether mic activity at a time is ignored on this lane.
pub open spec fn lane_gate(e: EngineState, lane: usize, cfg: Config) -> spec_fn(u64) -> bool {
    |t_ns: u64|
        e.was_running && cfg.echo_gate.enabled && lane == LANE_MIC && e.gate.shut(
            t_ns,
            cfg.echo_gate.tail_ms,
        )
}

/// The segmentation of a batch.
pub open spec fn batch_segmented(
    e: EngineState,
    lane: usize,
    cfg: Config,
    batch: Batch,
    time: spec_fn(u64) -> u64,
) -> Segmentation {
    let p = e.lanes[lane as int];
    segmented(
        Segmentation {
            seg: sized(p.segmenter, batch.window, p.consumed),
            events: Seq::empty(),
            used: 0,
        },
        batch.det,
        Run {
            base_sample: p.consumed,
            amp_threshold: batch.amp_threshold,
            levels: batch.levels,
            cfg: cfg.segmenter_of(lane),
            time,
            gated: lane_gate(e, lane, cfg),
        },
    )
}

/// The waveform after a batch.
pub open spec fn batch_binned(
    e: EngineState,
    lane: usize,
    sh: Shared,
    batch: Batch,
    time: spec_fn(u64) -> u64,
) -> Binning {
    let p = e.lanes[lane as int];
    binned(
        Binning { bin: caught_up(p.bin, p.consumed), levels: sh.lanes[lane as int].bins@ },
        batch.samples,
        p.consumed,
        batch.fine_samples,
        sh.session_start_ns,
        time,
    )
}

/// The engine after a batch. Samples are segmented whenever they can be placed
/// in time, so that the threshold is adapted before a session starts; only
/// within a session are they drawn and their edges queued.
pub open spec fn batch_processed(
    e: EngineState,
    lane: usize,
    sh: Shared,
    batch: Batch,
    now_ns: u64,
    time: spec_fn(u64) -> u64,
) -> EngineState {
    let p = e.lanes[lane as int];
    let consumed = (p.consumed + batch.samples.len()) as u64;
    if !p.timemap.ready {
        e.with_lane(lane, Lane { consumed, ..p })
    } else {
        let end = batch_segmented(e, lane, sh.cfg, batch, time);
        let after = e.with_lane(
            lane,
            Lane {
                segmenter: end.seg,
                bin: if e.was_running {
                    batch_binned(e, lane, sh, batch, time).bin
                } else {
                    p.bin
                },
                consumed,
                ..p
            },
        );
        if !e.was_running {
            after
        } else {
            EngineState {
                gate: if lane == LANE_SYS {
                    e.gate.after_all(end.events)
                } else {
                    e.gate
                },
                queue: e.queue + stamped(lane, end.events, now_ns),
                ..after
            }
        }
    }
}

/// The session is over: blocks and speech in progress have ended, their edges
/// are applied, and nothing else has changed.
pub open spec fn session_wrapped_up(
    e: EngineState,
    sh: Shared,
    e_after: EngineState,
    sh_after: Shared,
    now_ns: u64,
) -> bool {
    &&& e_after == EngineState {
        lanes: seq![e.lanes[0].closed(), e.lanes[1].closed()],
        tracker: e_after.tracker,
        speech: SpeechTrack { open_ns: None, ..e.speech },
        ..e
    }
    &&& board_of(sh_after, e_after.tracker) == board_after(
        board_of(sh, e.tracker),
        time_ordered(e.closing_edges(sh.cfg, now_ns)),
        sh.cfg.merge_gap_ms,
    )
    &&& (sh_after.lanes[0].speech_open_ns, sh_after.lanes[0].speech@) == speech_after(
        sh.lanes[0].speech_open_ns,
        sh.lanes[0].speech@,
        e.closing_speech(),
    )
    &&& sh_after == Shared {
        lanes: sh_after.lanes,
        turns: sh_after.turns,
        interruptions: sh_after.interruptions,
        ..sh
    }
    &&& same_but_blocks(sh_after.lanes[1], sh.lanes[1])
    &&& sh_after.lanes[0] == LaneState {
        blocks: sh_after.lanes[0].blocks,
        open_start_ns: sh_after.lanes[0].open_start_ns,
        speech: sh_after.lanes[0].speech,
        speech_open_ns: sh_after.lanes[0].speech_open_ns,
        ..sh.lanes[0]
    }
}

/// A tick has begun: the engine follows the session from phase to phase.
pub open spec fn tick_begun(
    e: EngineState,
    sh: Shared,
    e_after: EngineState,
    sh_after: Shared,
    t: Transition,
    now_ns: u64,
) -> bool {
    let running = sh.phase == Phase::Running;
    &&& t == if running && !e.was_running {
        Transition::Started { record: sh.cfg.record_wav && sh.session_dir is Some }
    } else if !running && e.was_running {
        Transition::Stopped
    } else {
        Transition::Steady
    }
    &&& match t {
        Transition::Started { record } => e_after == e.session_started(record) && sh_after == sh,
        Transition::Steady => e_after == (EngineState { queue: Seq::empty(), ..e }) && sh_after
            == sh,
        Transition::Stopped => session_wrapped_up(
            EngineState { was_running: false, queue: Seq::empty(), ..e },
            sh,
            e_after,
            sh_after,
            now_ns,
        ),
    }
}

/// The engine after what both streams delivered. The system lane goes first, so
/// that the mic is gated by bot audio that is just as fresh.
pub open spec fn both_processed(
    e: EngineState,
    sh: Shared,
    sys: Option<Batch>,
    mic: Option<Batch>,
    now_ns: u64,
    sys_time: spec_fn(u64) -> u64,
    mic_time: spec_fn(u64) -> u64,
) -> EngineState {
    let heard = match sys {
        Some(batch) => batch_processed(e, LANE_SYS, sh, batch, now_ns, sys_time),
        None => e,
    };
    match mic {
        Some(batch) => batch_processed(heard, LANE_MIC, sh, batch, now_ns, mic_time),
        None => heard,
    }
}

/// What both streams delivered has been processed, and is shown.
pub open spec fn lanes_taken(
    e: EngineState,
    sh: Shared,
    e_after: EngineState,
    sh_after: Shared,
    sys: Option<Batch>,
    mic: Option<Batch>,
    now_ns: u64,
    sys_time: spec_fn(u64) -> u64,
    mic_time: spec_fn(u64) -> u64,
) -> bool {
    &&& e_after == both_processed(e, sh, sys, mic, now_ns, sys_time, mic_time)
    &&& sh_after == Shared { lanes: sh_after.lanes, ..sh }
    &&& match sys {
        Some(batch) => lane_shown(e, LANE_SYS, sh, batch, sys_time, sh_after.lanes[1]),
        None => sh_after.lanes[1] == sh.lanes[1],
    }
    &&& match mic {
        Some(batch) => lane_shown(e, LANE_MIC, sh, batch, mic_time, sh_after.lanes[0]),
        None => sh_after.lanes[0] == sh.lanes[0],
    }
}

/// The batch that a stream delivered, if it delivered any.
pub open spec fn batch_of(batch: Option<&LaneBatch>) -> Option<Batch> {
    match batch {
        Some(b) => Some(b@),
        None => None,
    }
}

/// Classified chunks of the mic lane have been taken in.
pub open spec fn speech_taken(
    e: EngineState,
    sh: Shared,
    e_after: EngineState,
    sh_after: Shared,
    chunks: Seq<ChunkProb>,
    time: spec_fn(u64) -> u64,
) -> bool {
    let (track, edges) = followed(e.speech, chunk_times(chunks, sh.session_start_ns, time));
    &&& e_after == EngineState { speech: track, ..e }
    &&& sh_after == Shared { lanes: sh_after.lanes, ..sh }
    &&& sh_after.lanes[1] == sh.lanes[1]
    &&& sh_after.lanes[0] == LaneState {
        speech: sh_after.lanes[0].speech,
        speech_open_ns: sh_after.lanes[0].speech_open_ns,
        ..sh.lanes[0]
    }
    &&& (sh_after.lanes[0].speech_open_ns, sh_after.lanes[0].speech@) == speech_after(
        sh.lanes[0].speech_open_ns,
        sh.lanes[0].speech@,
        edges,
    )
}

/// The health of the system audio tap has been followed.
pub open spec fn tap_followed(
    e: EngineState,
    sh: Shared,
    e_after: EngineState,
    sh_after: Shared,
    now_ns: u64,
    device_changes: Option<u64>,
    failed: bool,
) -> bool {
    &&& e_after == match device_changes {
        Some(c) if c > e.lanes[1].seen_device_changes => device_changed(e, sh.cfg, c, now_ns),
        _ => e,
    }
    &&& sh_after == Shared {
        discontinuities: sh_after.discontinuities,
        sys_status: sh_after.sys_status,
        ..sh
    }
    &&& sh_after.discontinuities@ == match device_changes {
        Some(c) if e.was_running && c > e.lanes[1].seen_device_changes => sh.discontinuities@.push(
            now_ns,
        ),
        _ => sh.discontinuities@,
    }
    &&& if failed && sh.sys_status is Capturing {
        sh_after.sys_status matches SysStatus::Error(why) && why@
            == "system tap failed after device change"@
    } else {
        sh_after.sys_status == sh.sys_status
    }
}

/// A tick has ended: within a session, the edges of both lanes are applied in
/// time order.
pub open spec fn tick_ended(
    e: EngineState,
    sh: Shared,
    e_after: EngineState,
    sh_after: Shared,
) -> bool {
    &&& e_after == EngineState { tracker: e_after.tracker, ..e }
    &&& board_of(sh_after, e_after.tracker) == if e.was_running {
        board_after(board_of(sh, e.tracker), time_ordered(e.queue), sh.cfg.merge_gap_ms)
    } else {
        board_of(sh, e.tracker)
    }
    &&& sh_after == Shared {
        lanes: sh_after.lanes,
        turns: sh_after.turns,
        interruptions: sh_after.interruptions,
        ..sh
    }
    &&& same_but_blocks(sh_after.lanes[0], sh.lanes[0])
    &&& same_but_blocks(sh_after.lanes[1], sh.lanes[1])
}

impl Engine {
    pub fn new() -> (e: Engine)
        ensures
            e@ == EngineState::fresh(),
            e@.wf(),
    {
        let e = Engine {
            procs: [LaneProc::new(), LaneProc::new()],
            tracker: TurnTracker::new(),
            was_running: false,
            gate: EchoGate::default(),
            speech_track: SpeechTrack::default(),
            vad_failed: false,
            last_mic_gen: 0,
            queue: Vec::new(),
        };
        assert(e@ =~= EngineState::fresh());
        e
    }

    /// Whether a session is running, as of the last tick begun.
    pub fn running(&self) -> (b: bool)
        ensures
            b == self@.was_running,
    {
        self.was_running
    }

    /// Stream `gen` delivers to a lane. Tells whether it is a new one, whose
    /// sample indices start over.
    pub fn attach(&mut self, lane: usize, gen: u64) -> (restarted: bool)
        requires
            lane < 2,
            old(self)@.wf(),
        ensures
            final(self)@.wf(),
            restarted == (gen != old(self)@.lanes[lane as int].gen),
            final(self)@ == if restarted {
                old(self)@.with_lane(lane, old(self)@.lanes[lane as int].restarted(gen))
            } else {
                old(self)@
            },
    {
        if gen != self.procs[lane].gen {
            self.procs[lane].reset_stream(gen);
            assert(self@ =~= old(self)@.with_lane(
                lane,
                old(self)@.lanes[lane as int].restarted(gen),
            ));
            true
        } else {
            false
        }
    }

    /// A buffer of a lane's stream was captured.
    pub fn sync(&mut self, lane: usize, ev: &SyncEvent, rate_moved: bool, candidate: Scalar64)
        requires
            lane < 2,
            old(self)@.wf(),
        ensures
            final(self)@.wf(),
            final(self)@ == old(self)@.with_lane(
                lane,
                Lane {
                    timemap: old(self)@.lanes[lane as int].timemap.synced(
                        *ev,
                        rate_moved,
                        candidate,
                    ),
                    ..old(self)@.lanes[lane as int]
                },
            ),
    {
        let ghost before = self@;
        self.procs[lane].timemap.on_sync(ev, rate_moved, candidate);
        assert(self@ =~= before.with_lane(
            lane,
            Lane {
                timemap: before.lanes[lane as int].timemap.synced(*ev, rate_moved, candidate),
                ..before.lanes[lane as int]
            },
        ));
    }

    /// Whether the mic's stream is another one than at the last call. Speech
    /// tracking then starts over, and so must the classifier.
    pub fn mic_stream_changed(&mut self) -> (changed: bool)
        requires
            old(self)@.wf(),
        ensures
            final(self)@.wf(),
            changed == (old(self)@.lanes[0].gen != old(self)@.last_mic_gen),
            final(self)@ == if changed {
                EngineState {
                    last_mic_gen: old(self)@.lanes[0].gen,
                    speech: SpeechTrack { open_ns: None, last_speech_end_ns: 0 },
                    ..old(self)@
                }
            } else {
                old(self)@
            },
    {
        if self.procs[LANE_MIC].gen != self.last_mic_gen {
            self.last_mic_gen = self.procs[LANE_MIC].gen;
            self.speech_track.reset();
            true
        } else {
            false
        }
    }

    /// Begins a tick: follows the session from phase to phase.
    pub fn begin_tick(&mut self, sh: &mut Shared, now_ns: u64) -> (t: Transition)
        requires
            old(self)@.wf(),
        ensures
            final(self)@.wf(),
            final(self)@.was_running == (old(sh).phase == Phase::Running),
            tick_begun(old(self)@, *old(sh), final(self)@, *final(sh), t, now_ns),
    {
        let running = sh.phase == Phase::Running;
        let was_running = self.was_running;
        self.was_running = running;
        self.queue.clear();
        if running && !was_running {
            let record = sh.cfg.record_wav && sh.session_dir.is_some();
            self.tracker.reset();
            self.gate.clear();
            self.procs[LANE_MIC].reset_session_accumulators();
            self.procs[LANE_SYS].reset_session_accumulators();
            self.procs[LANE_MIC].wav_pending = record;
            self.procs[LANE_SYS].wav_pending = record;
            self.speech_track.reset();
            self.vad_failed = false;
            assert(self@ =~= old(self)@.session_started(record));
            return Transition::Started { record };
        }
        if !running && was_running {
            self.close_session(sh, now_ns);
            return Transition::Stopped;
        }
        Transition::Steady
    }

    /// Ends the blocks and the speech region in progress.
    fn close_session(&mut self, sh: &mut Shared, now_ns: u64)
        requires
            old(self)@.wf(),
        ensures
            final(self)@.wf(),
            session_wrapped_up(old(self)@, *old(sh), final(self)@, *final(sh), now_ns),
    {
        let ghost before = self@;
        let mut edges: Vec<TickEvent> = Vec::new();
        let mut sys: Vec<SegEvent> = Vec::new();
        self.procs[LANE_SYS].segmenter.finalize(&sh.cfg.sys_segmenter, &mut sys);
        queue_events(&mut edges, LANE_SYS, &sys, now_ns);
        let mut mic: Vec<SegEvent> = Vec::new();
        self.procs[LANE_MIC].segmenter.finalize(&sh.cfg.mic_segmenter, &mut mic);
        queue_events(&mut edges, LANE_MIC, &mic, now_ns);
        assert(edges@ =~= before.closing_edges(sh.cfg, now_ns)) by {
            assert(sys@ =~= closing_edge(before.lanes[1].segmenter, sh.cfg.sys_segmenter));
            assert(mic@ =~= closing_edge(before.lanes[0].segmenter, sh.cfg.mic_segmenter));
        }
        self.procs[LANE_SYS].wav_pending = false;
        self.procs[LANE_MIC].wav_pending = false;
        let mut speech: Vec<VadEvent> = Vec::new();
        self.speech_track.finalize(&mut speech);
        assert(speech@ =~= before.closing_speech());
        let ghost start = board_of(*sh, self.tracker@);
        apply_speech_events(&mut sh.lanes[LANE_MIC], &speech);
        assert(board_of(*sh, self.tracker@) =~= start);
        apply_events(sh, &mut self.tracker, &edges);
        assert(self@.lanes =~= seq![before.lanes[0].closed(), before.lanes[1].closed()]);
    }

    /// Absolute index of the next sample of a lane.
    pub fn consumed(&self, lane: usize) -> (n: u64)
        requires
            lane < 2,
        ensures
            n == self@.lanes[lane as int].consumed,
    {
        self.procs[lane].consumed
    }

    /// The segmenter of a lane.
    pub fn segmenter(&self, lane: usize) -> (seg: &Segmenter)
        requires
            lane < 2,
        ensures
            *seg == self@.lanes[lane as int].segmenter,
    {
        &self.procs[lane].segmenter
    }

    /// The time map of a lane.
    pub fn timemap(&self, lane: usize) -> (m: &TimeMap)
        requires
            lane < 2,
        ensures
            m@ == self@.lanes[lane as int].timemap,
    {
        &self.procs[lane].timemap
    }

    /// Whether a lane's recording is to be begun now. The lane is then taken to
    /// be recorded, or to have failed to be.
    pub fn take_wav_request(&mut self, lane: usize) -> (wanted: bool)
        requires
            lane < 2,
            old(self)@.wf(),
        ensures
            final(self)@.wf(),
            wanted == old(self)@.lanes[lane as int].wav_pending,
            final(self)@ == old(self)@.with_lane(
                lane,
                Lane { wav_pending: false, ..old(self)@.lanes[lane as int] },
            ),
    {
        let ghost before = self@;
        let wanted = self.procs[lane].wav_pending;
        self.procs[lane].wav_pending = false;
        assert(self@ =~= before.with_lane(
            lane,
            Lane { wav_pending: false, ..before.lanes[lane as int] },
        ));
        wanted
    }

    /// Processes what both streams delivered, each if it delivered any, the
    /// system lane before the mic lane. `sys_ns` and `mic_ns` map absolute sample
    /// indices of the two streams to clock time.
    pub fn process_lanes(
        &mut self,
        sh: &mut Shared,
        sys: Option<&LaneBatch>,
        mic: Option<&LaneBatch>,
        now_ns: u64,
        sys_ns: &impl Fn(u64) -> u64,
        mic_ns: &impl Fn(u64) -> u64,
    )
        requires
            old(self)@.wf(),
            sys matches Some(b) ==> old(self)@.accepts(LANE_SYS, *b),
            mic matches Some(b) ==> old(self)@.accepts(LANE_MIC, *b),
            forall|x: u64| #[trigger] sys_ns.requires((x,)),
            forall|x: u64| #[trigger] mic_ns.requires((x,)),
        ensures
            final(self)@.wf(),
            *final(sh) == (Shared { lanes: final(sh).lanes, ..*old(sh) }),
            forall|sys_time: spec_fn(u64) -> u64, mic_time: spec_fn(u64) -> u64|
                #![trigger computes(*sys_ns, sys_time), computes(*mic_ns, mic_time)]
                computes(*sys_ns, sys_time) && computes(*mic_ns, mic_time) ==> lanes_taken(
                    old(self)@,
                    *old(sh),
                    final(self)@,
                    *final(sh),
                    batch_of(sys),
                    batch_of(mic),
                    now_ns,
                    sys_time,
                    mic_time,
                ),
    {
        if let Some(batch) = sys {
            self.process_lane(sh, LANE_SYS, batch, now_ns, sys_ns);
        }
        if let Some(batch) = mic {
            self.process_lane(sh, LANE_MIC, batch, now_ns, mic_ns);
        }
    }

    /// Processes what a lane's stream delivered. `sample_ns` maps absolute sample
    /// indices to clock time.
    fn process_lane(
        &mut self,
        sh: &mut Shared,
        lane: usize,
        batch: &LaneBatch,
        now_ns: u64,
        sample_ns: &impl Fn(u64) -> u64,
    )
        requires
            lane < 2,
            old(self)@.wf(),
            old(self)@.accepts(lane, *batch),
            forall|x: u64| #[trigger] sample_ns.requires((x,)),
        ensures
            final(self)@.wf(),
            final(self)@.was_running == old(self)@.was_running,
            final(self)@.lanes[1 - lane] == old(self)@.lanes[1 - lane],
            *final(sh) == (Shared { lanes: final(sh).lanes, ..*old(sh) }),
            final(sh).lanes[1 - lane] == old(sh).lanes[1 - lane],
            forall|time: spec_fn(u64) -> u64| #[trigger] computes(*sample_ns, time) ==> {
                &&& final(self)@ == batch_processed(
                    old(self)@,
                    lane,
                    *old(sh),
                    batch@,
                    now_ns,
                    time,
                )
                &&& lane_shown(
                    old(self)@,
                    lane,
                    *old(sh),
                    batch@,
                    time,
                    final(sh).lanes[lane as int],
                )
            },
    {
        let ghost before = self@;
        let ghost shown = *sh;
        let p_consumed: u64 = self.procs[lane].consumed;
        let n: u64 = batch.samples.len() as u64;
        let ready = self.procs[lane].timemap.ready();
        sh.lanes[lane].level_db = batch.level_db;
        sh.lanes[lane].effective_threshold_db = self.procs[lane].segmenter.effective_threshold_db;
        if ready {
            sh.lanes[lane].last_sample_ns = sample_ns(p_consumed + n);
            if self.was_running {
                self.procs[lane].feed_bins(
                    &mut sh.lanes[lane].bins,
                    batch.samples,
                    batch.fine_samples,
                    sh.session_start_ns,
                    sample_ns,
                );
            }
            let ghost drawn = self@;
            assert(drawn =~= before.with_lane(lane, drawn.lanes[lane as int]));
            let mut events: Vec<SegEvent> = Vec::new();
            self.segment(lane, &sh.cfg, batch, sample_ns, &mut events);
            if self.was_running {
                if lane == LANE_SYS {
                    let mut i: usize = 0;
                    let ghost segmented_state = self@;
                    assert(events@.take(0) =~= Seq::empty());
                    while i < events.len()
                        invariant
                            i <= events@.len(),
                            segmented_state.wf(),
                            self@ == (EngineState {
                                gate: segmented_state.gate.after_all(events@.take(i as int)),
                                ..segmented_state
                            }),
                        decreases events@.len() - i,
                    {
                        assert(events@.take(i + 1).drop_last() =~= events@.take(i as int));
                        self.gate.on_event(events[i]);
                        i = i + 1;
                    }
                    assert(events@.take(events@.len() as int) =~= events@);
                }
                queue_events(&mut self.queue, lane, &events, now_ns);
            }
            self.procs[lane].consumed = p_consumed + n;
            assert forall|time: spec_fn(u64) -> u64| #[trigger]
                computes(*sample_ns, time) implies self@ == batch_processed(
                before,
                lane,
                shown,
                batch@,
                now_ns,
                time,
            ) by {
                assert(batch_segmented(drawn, lane, shown.cfg, batch@, time) == batch_segmented(
                    before,
                    lane,
                    shown.cfg,
                    batch@,
                    time,
                ));
                assert(self@ =~= batch_processed(before, lane, shown, batch@, now_ns, time));
            }
        } else {
            self.procs[lane].consumed = p_consumed + n;
            assert(self@ =~= before.with_lane(
                lane,
                Lane { consumed: (p_consumed + n) as u64, ..before.lanes[lane as int] },
            ));
        }
    }

    /// Segments a batch; the edges go to `events`.
    fn segment(
        &mut self,
        lane: usize,
        cfg: &Config,
        batch: &LaneBatch,
        sample_ns: &impl Fn(u64) -> u64,
        events: &mut Vec<SegEvent>,
    )
        requires
            lane < 2,
            old(self)@.wf(),
            old(events)@.len() == 0,
            old(self)@.lanes[lane as int].consumed + batch.det@.len() <= u64::MAX,
            batch.levels@.len() == old(self)@.lanes[lane as int].segmenter.windows_in(
                batch.det@.len(),
                batch.window,
            ),
            forall|x: u64| #[trigger] sample_ns.requires((x,)),
        ensures
            final(self)@.wf(),
            final(self)@ == old(self)@.with_lane(
                lane,
                Lane {
                    segmenter: final(self)@.lanes[lane as int].segmenter,
                    ..old(self)@.lanes[lane as int]
                },
            ),
            forall|time: spec_fn(u64) -> u64| #[trigger] computes(*sample_ns, time) ==> {
                let end = batch_segmented(old(self)@, lane, *cfg, batch@, time);
                final(self)@.lanes[lane as int].segmenter == end.seg && final(events)@ == end.events
            },
    {
        let ghost before = self@;
        let lane_cfg: SegmenterConfig = *seg_cfg(cfg, lane);
        let enabled = self.was_running && cfg.echo_gate.enabled && lane == LANE_MIC;
        let tail_ms: u64 = cfg.echo_gate.tail_ms;
        let base: u64 = self.procs[lane].consumed;
        let gate = &self.gate;
        let gated = |t_ns: u64| -> (b: bool)
            ensures
                b == (enabled && gate@.shut(t_ns, tail_ms)),
            { enabled && gate.gated(t_ns, tail_ms) };
        assert(events@ =~= Seq::empty());
        self.procs[lane].segmenter.process(
            batch.det,
            base,
            Some(batch.window),
            batch.amp_threshold,
            batch.levels,
            &lane_cfg,
            sample_ns,
            &gated,
            events,
        );
        proof {
            assert(self@ =~= before.with_lane(
                lane,
                Lane {
                    segmenter: self@.lanes[lane as int].segmenter,
                    ..before.lanes[lane as int]
                },
            ));
            assert forall|time: spec_fn(u64) -> u64| #[trigger]
                computes(*sample_ns, time) implies {
                let end = batch_segmented(before, lane, *cfg, batch@, time);
                self@.lanes[lane as int].segmenter == end.seg && events@ == end.events
            } by {
                let run = Run {
                    base_sample: base,
                    amp_threshold: batch.amp_threshold,
                    levels: batch.levels@,
                    cfg: lane_cfg,
                    time,
                    gated: lane_gate(before, lane, *cfg),
                };
                assert(run.describes(
                    base,
                    batch.amp_threshold,
                    batch.levels@,
                    lane_cfg,
                    *sample_ns,
                    gated,
                ));
            }
        }
    }

    /// Whether speech is to be classified.
    pub fn vad_wanted(&self, sh: &Shared) -> (wanted: bool)
        ensures
            wanted == (sh.cfg.vad_tint && !self@.vad_failed),
    {
        sh.cfg.vad_tint && !self.vad_failed
    }

    /// A new classifier is in place: speech tracking starts over.
    pub fn vad_ready(&mut self, sh: &mut Shared)
        requires
            old(self)@.wf(),
        ensures
            final(self)@.wf(),
            final(self)@ == (EngineState {
                speech: SpeechTrack { open_ns: None, last_speech_end_ns: 0 },
                ..old(self)@
            }),
            *final(sh) == (Shared { vad_error: None, ..*old(sh) }),
    {
        self.speech_track.reset();
        sh.vad_error = None;
    }

    /// The classifier failed: no more is tried in this session.
    pub fn vad_broke(&mut self, sh: &mut Shared, why: String)
        requires
            old(self)@.wf(),
        ensures
            final(self)@.wf(),
            final(self)@ == (EngineState { vad_failed: true, ..old(self)@ }),
            *final(sh) == (Shared { vad_error: Some(why), ..*old(sh) }),
    {
        self.vad_failed = true;
        sh.vad_error = Some(why);
    }

    /// Takes in classified chunks of the mic lane. Only the display of speech
    /// depends on them: blocks, turns and metrics do not.
    pub fn speech_chunks(
        &mut self,
        sh: &mut Shared,
        chunks: &[ChunkProb],
        sample_ns: &impl Fn(u64) -> u64,
    )
        requires
            old(self)@.wf(),
            forall|x: u64| #[trigger] sample_ns.requires((x,)),
        ensures
            final(self)@.wf(),
            final(self)@ == (EngineState { speech: final(self)@.speech, ..old(self)@ }),
            *final(sh) == (Shared { lanes: final(sh).lanes, ..*old(sh) }),
            final(sh).lanes[1] == old(sh).lanes[1],
            final(sh).lanes[0] == (LaneState {
                speech: final(sh).lanes[0].speech,
                speech_open_ns: final(sh).lanes[0].speech_open_ns,
                ..old(sh).lanes[0]
            }),
            forall|time: spec_fn(u64) -> u64| #[trigger] computes(*sample_ns, time) ==> speech_taken(
                old(self)@,
                *old(sh),
                final(self)@,
                *final(sh),
                chunks@,
                time,
            ),
    {
        let start_ns: u64 = sh.session_start_ns;
        let mut edges: Vec<VadEvent> = Vec::new();
        let mut i: usize = 0;
        while i < chunks.len()
            invariant
                i <= chunks@.len(),
                forall|x: u64| #[trigger] sample_ns.requires((x,)),
                self@ == (EngineState { speech: self@.speech, ..old(self)@ }),
                forall|time: spec_fn(u64) -> u64| #[trigger] computes(*sample_ns, time) ==> (
                    self@.speech,
                    edges@,
                ) == followed(
                    old(self)@.speech,
                    chunk_times(chunks@.take(i as int), start_ns, time),
                ),
            decreases chunks@.len() - i,
        {
            let c = chunks[i];
            let t0: u64 = later(sample_ns(c.start_sample), start_ns);
            let t1: u64 = later(sample_ns(c.end_sample), start_ns);
            let ghost before = (self@.speech, edges@);
            self.speech_track.on_chunk(t0, t1, c.prob, &mut edges);
            proof {
                assert forall|time: spec_fn(u64) -> u64| #[trigger]
                    computes(*sample_ns, time) implies (self@.speech, edges@) == followed(
                    old(self)@.speech,
                    chunk_times(chunks@.take(i + 1), start_ns, time),
                ) by {
                    let all = chunk_times(chunks@.take(i + 1), start_ns, time);
                    assert(all.drop_last() =~= chunk_times(
                        chunks@.take(i as int),
                        start_ns,
                        time,
                    ));
                    assert(all.last() == (t0, t1, c.prob));
                }
            }
            i = i + 1;
        }
        assert(chunks@.take(chunks@.len() as int) =~= chunks@);
        apply_speech_events(&mut sh.lanes[LANE_MIC], &edges);
    }

    /// Follows the health of the system audio tap. `device_changes` counts the
    /// changes of the output device so far, `failed` tells that the tap could not
    /// be restarted. A change within a session ends the bot audio in progress:
    /// timing across it is not to be trusted.
    pub fn tap_health(
        &mut self,
        sh: &mut Shared,
        now_ns: u64,
        device_changes: Option<u64>,
        failed: bool,
    )
        requires
            old(self)@.wf(),
        ensures
            final(self)@.wf(),
            tap_followed(
                old(self)@,
                *old(sh),
                final(self)@,
                *final(sh),
                now_ns,
                device_changes,
                failed,
            ),
    {
        let ghost before = self@;
        if let Some(c) = device_changes {
            if c > self.procs[LANE_SYS].seen_device_changes {
                self.procs[LANE_SYS].seen_device_changes = c;
                if self.was_running {
                    sh.discontinuities.push(now_ns);
                    self.tracker.note_discontinuity();
                    let mut events: Vec<SegEvent> = Vec::new();
                    self.procs[LANE_SYS].segmenter.finalize(&sh.cfg.sys_segmenter, &mut events);
                    assert(events@ =~= closing_edge(
                        before.lanes[1].segmenter,
                        sh.cfg.sys_segmenter,
                    ));
                    queue_events(&mut self.queue, LANE_SYS, &events, now_ns);
                    self.gate.on_device_change(now_ns);
                }
                assert(self@ =~= device_changed(before, sh.cfg, c, now_ns));
            }
        }
        if failed {
            if let SysStatus::Capturing = sh.sys_status {
                sh.sys_status = SysStatus::Error(
                    String::from_str("system tap failed after device change"),
                );
            }
        }
    }

    /// Ends a tick: within a session, the edges of both lanes are applied in
    /// time order.
    pub fn end_tick(&mut self, sh: &mut Shared)
        requires
            old(self)@.wf(),
        ensures
            final(self)@.wf(),
            tick_ended(old(self)@, *old(sh), final(self)@, *final(sh)),
    {
        if self.was_running {
            apply_events(sh, &mut self.tracker, &self.queue);
        }
    }
}

/// The later of two times.
fn later(a: u64, b: u64) -> (t: u64)
    ensures
        t == if a >= b {
            a
        } else {
            b
        },
{
    if a >= b {
        a
    } else {
        b
    }
}

/// The chunks placed in time; nothing is placed before the session.
pub open spec fn chunk_times(
    chunks: Seq<ChunkProb>,
    start_ns: u64,
    time: spec_fn(u64) -> u64,
) -> Seq<(u64, u64, Scalar32)> {
    let at = |n: u64|
        if time(n) >= start_ns {
            time(n)
        } else {
            start_ns
        };
    Seq::new(
        chunks.len(),
        |i: int| (at(chunks[i].start_sample), at(chunks[i].end_sample), chunks[i].prob),
    )
}

/// The engine once the output device has changed for the `c`th time.
pub open spec fn device_changed(e: EngineState, cfg: Config, c: u64, now_ns: u64) -> EngineState {
    let sys = e.lanes[1];
    if !e.was_running {
        e.with_lane(LANE_SYS, Lane { seen_device_changes: c, ..sys })
    } else {
        EngineState {
            tracker: TrackerState { pending_discontinuity: true, ..e.tracker },
            gate: e.gate.cut(now_ns),
            queue: e.queue + stamped(
                LANE_SYS,
                closing_edge(sys.segmenter, cfg.sys_segmenter),
                now_ns,
            ),
            ..e.with_lane(
                LANE_SYS,
                Lane {
                    seen_device_changes: c,
                    segmenter: Segmenter { active: None, ..sys.segmenter },
                    ..sys
                },
            )
        }
    }
}

/// What a lane shows after a batch.
pub open spec fn lane_shown(
    e: EngineState,
    lane: usize,
    sh: Shared,
    batch: Batch,
    time: spec_fn(u64) -> u64,
    after: LaneState,
) -> bool {
    let p = e.lanes[lane as int];
    let before = sh.lanes[lane as int];
    &&& after == LaneState {
        bins: after.bins,
        level_db: batch.level_db,
        effective_threshold_db: p.segmenter.effective_threshold_db,
        last_sample_ns: if p.timemap.ready {
            time((p.consumed + batch.samples.len()) as u64)
        } else {
            before.last_sample_ns
        },
        ..before
    }
    &&& after.bins@ == if p.timemap.ready && e.was_running {
        batch_binned(e, lane, sh, batch, time).levels
    } else {
        before.bins@
    }
}

} // verus!
