use pipecat_audio_metrics::analysis::echo_gate::EchoGate;
use pipecat_audio_metrics::analysis::engine::{Engine, LaneBatch, Transition};
use pipecat_audio_metrics::analysis::events::{sort_by_time, TickEvent};
use pipecat_audio_metrics::analysis::segmenter::{SegEvent, WindowLevel};
use pipecat_audio_metrics::analysis::timemap::{TimeMap, TIMEMAP_WINDOW};
use pipecat_audio_metrics::analysis::vad::ChunkProb;
use pipecat_audio_metrics::audio::{SyncEvent, LANE_MIC, LANE_SYS};
use pipecat_audio_metrics::config::Config;
use pipecat_audio_metrics::scalar::{Scalar32, Scalar64};
use pipecat_audio_metrics::session::{Block, Phase, Shared, SysStatus};

const SR: f64 = 16_000.0;
const MS: u64 = 1_000_000;

fn key(x: f32) -> Scalar32 {
    Scalar32::from_bits(x.to_bits()).unwrap()
}

fn key64(x: f64) -> Scalar64 {
    Scalar64::from_bits(x.to_bits()).unwrap()
}

fn value(s: Scalar32) -> f32 {
    f32::from_bits(s.to_bits())
}

/// Sample n of the virtual streams is at n/SR seconds.
fn sample_ns(n: u64) -> u64 {
    (n as f64 / SR * 1e9) as u64
}

fn place_burst(signal: &mut [f32], start_ms: u64, end_ms: u64) {
    let a = (start_ms as f64 / 1000.0 * SR) as usize;
    let b = (end_ms as f64 / 1000.0 * SR) as usize;
    for (k, s) in signal[a..b].iter_mut().enumerate() {
        *s = 0.5 * (k as f32 * 0.35).sin();
    }
}

fn rms_db(samples: &[f32]) -> f32 {
    let mean_sq =
        samples.iter().map(|&s| (s as f64) * (s as f64)).sum::<f64>() / samples.len() as f64;
    (10.0 * (mean_sq + 1e-12).log10()) as f32
}

/// What was measured of a signal, in whole windows of 10 ms.
struct Measured {
    samples: Vec<Scalar32>,
    level_db: Scalar32,
    amp_threshold: Scalar32,
    levels: Vec<WindowLevel>,
}

impl Measured {
    fn of(engine: &Engine, lane: usize, signal: &[f32]) -> Measured {
        let levels: Vec<WindowLevel> = signal
            .chunks_exact(160)
            .map(|w| WindowLevel { rms_db: key(rms_db(w)), auto_threshold_db: key(-58.0) })
            .collect();
        assert_eq!(levels.len(), engine.segmenter(lane).windows_completed(signal.len(), 160));
        let amp = 10f32.powf(value(engine.segmenter(lane).effective_threshold_db) / 20.0);
        Measured {
            samples: signal.iter().map(|&s| key(s)).collect(),
            level_db: key(rms_db(&signal[signal.len() - 480..])),
            amp_threshold: key(amp),
            levels,
        }
    }

    fn batch(&self) -> LaneBatch<'_> {
        LaneBatch {
            samples: &self.samples,
            det: &self.samples,
            level_db: self.level_db,
            window: 160,
            fine_samples: 32,
            amp_threshold: self.amp_threshold,
            levels: &self.levels,
        }
    }
}

/// Feeds one lane.
fn feed(engine: &mut Engine, sh: &mut Shared, lane: usize, signal: &[f32], now_ns: u64) {
    let measured = Measured::of(engine, lane, signal);
    let batch = measured.batch();
    if lane == LANE_SYS {
        engine.process_lanes(sh, Some(&batch), None, now_ns, &sample_ns, &sample_ns);
    } else {
        engine.process_lanes(sh, None, Some(&batch), now_ns, &sample_ns, &sample_ns);
    }
}

fn sync(samples_before: u64) -> SyncEvent {
    SyncEvent {
        samples_before,
        first_frame_ns: sample_ns(samples_before),
        sample_rate: key64(SR),
    }
}

/// Runs a two-lane recording through the engine in batches of 100 ms and stops
/// the session at its end.
fn converse(cfg: Config, mic: &[f32], sys: &[f32]) -> Shared {
    let mut sh = Shared::new(cfg);
    sh.start_session(0, None);
    let mut engine = Engine::new();
    assert!(engine.attach(LANE_MIC, 1) && engine.attach(LANE_SYS, 2));
    assert!(!engine.attach(LANE_MIC, 1));
    assert!(engine.mic_stream_changed() && !engine.mic_stream_changed());
    let mut now = 0;
    for (m, s) in mic.chunks(1600).zip(sys.chunks(1600)) {
        let n = engine.consumed(LANE_MIC);
        engine.sync(LANE_MIC, &sync(n), false, key64(0.0));
        engine.sync(LANE_SYS, &sync(n), false, key64(0.0));
        now = sample_ns(n + m.len() as u64);
        let t = engine.begin_tick(&mut sh, now);
        assert_eq!(
            t,
            if n == 0 { Transition::Started { record: false } } else { Transition::Steady }
        );
        let sys = Measured::of(&engine, LANE_SYS, s);
        let mic = Measured::of(&engine, LANE_MIC, m);
        engine.process_lanes(
            &mut sh,
            Some(&sys.batch()),
            Some(&mic.batch()),
            now,
            &sample_ns,
            &sample_ns,
        );
        engine.tap_health(&mut sh, now, None, false);
        engine.end_tick(&mut sh);
    }
    sh.stop_session(now);
    assert_eq!(engine.begin_tick(&mut sh, now), Transition::Stopped);
    engine.end_tick(&mut sh);
    assert_eq!(engine.begin_tick(&mut sh, now), Transition::Steady);
    sh
}

/// A synthetic two-lane conversation with known gaps: the measured latencies
/// must match.
#[test]
fn synthetic_conversation_measures_correct_latencies() {
    let total = (SR * 11.0) as usize;
    let mut mic = vec![0.0f32; total];
    let mut sys = vec![0.0f32; total];
    // turn 1: user 500-2500ms, bot 3300-5000ms, latency 800ms
    place_burst(&mut mic, 500, 2500);
    place_burst(&mut sys, 3300, 5000);
    // turn 2: user 6000-7000ms, bot 7600-9000ms, latency 600ms
    place_burst(&mut mic, 6000, 7000);
    place_burst(&mut sys, 7600, 9000);

    let sh = converse(Config::default(), &mic, &sys);
    assert_eq!(
        sh.lanes[LANE_MIC].blocks.len(),
        2,
        "mic blocks: {:?}",
        sh.lanes[LANE_MIC].blocks
    );
    assert_eq!(sh.lanes[LANE_SYS].blocks.len(), 2);
    assert_eq!(sh.turns.len(), 2, "turns: {:#?}", sh.turns);

    let l0 = sh.turns[0].latency_ms.expect("turn 0 latency").ns as f64 / 1e6;
    let l1 = sh.turns[1].latency_ms.expect("turn 1 latency").ns as f64 / 1e6;
    assert!((l0 - 800.0).abs() < 25.0, "turn 0 latency {l0}");
    assert!((l1 - 600.0).abs() < 25.0, "turn 1 latency {l1}");
    assert!(!sh.turns[0].flags.any());
    assert!(!sh.turns[1].flags.any());
    // user response time for turn 2: bot ended 5000, user started 6000
    let ur = sh.turns[1].user_response_ms.expect("user response").ns as f64 / 1e6;
    assert!((ur - 1000.0).abs() < 25.0, "user response {ur}");
    // waveform bins were built for both lanes
    assert!(!sh.lanes[LANE_MIC].bins.level(0).is_empty());
    assert!(!sh.lanes[LANE_SYS].bins.level(0).is_empty());
    assert_eq!(sh.lanes[LANE_MIC].bins.level(0).len(), 5500);
    assert_eq!(sh.lanes[LANE_MIC].bins.level(3).len(), 5500 / 512);
}

/// The echo gate must suppress mic blocks that overlap bot audio.
#[test]
fn echo_gate_suppresses_mic_during_bot_audio() {
    let total = (SR * 8.0) as usize;
    let mut mic = vec![0.0f32; total];
    let mut sys = vec![0.0f32; total];
    place_burst(&mut mic, 500, 1500); // real user speech
    place_burst(&mut sys, 2200, 4500); // bot reply
    place_burst(&mut mic, 2300, 4400); // echo of bot into the mic

    let mut cfg = Config::default();
    cfg.echo_gate.enabled = true;
    cfg.echo_gate.tail_ms = 300;

    let sh = converse(cfg, &mic, &sys);
    assert_eq!(
        sh.lanes[LANE_MIC].blocks.len(),
        1,
        "echo should be gated out; mic blocks: {:?}",
        sh.lanes[LANE_MIC].blocks
    );
    assert_eq!(sh.turns.len(), 1);
    let l = sh.turns[0].latency_ms.expect("latency").ns as f64 / 1e6;
    assert!((l - 700.0).abs() < 25.0, "latency {l}");

    let open = converse(Config::default(), &mic, &sys);
    assert_eq!(open.lanes[LANE_MIC].blocks.len(), 2);
}

/// Echo that reaches the mic before the hangover of a real utterance has passed
/// must not keep that utterance open through the bot's reply.
#[test]
fn echo_does_not_keep_an_utterance_open() {
    let total = (SR * 8.0) as usize;
    let mut mic = vec![0.0f32; total];
    let mut sys = vec![0.0f32; total];
    place_burst(&mut mic, 500, 1500);
    place_burst(&mut sys, 1600, 4500);
    place_burst(&mut mic, 1610, 4400);

    let mut cfg = Config::default();
    cfg.echo_gate.enabled = true;
    let sh = converse(cfg, &mic, &sys);
    assert_eq!(sh.lanes[LANE_MIC].blocks.len(), 1);
    let end_ms = sh.lanes[LANE_MIC].blocks[0].end_ns as f64 / 1e6;
    assert!((end_ms - 1500.0).abs() < 25.0, "utterance ended at {end_ms}");
    assert_eq!(sh.turns.len(), 1);
    let l = sh.turns[0].latency_ms.expect("latency").ns as f64 / 1e6;
    assert!((l - 100.0).abs() < 25.0, "latency {l}");
    assert!(!sh.turns[0].flags.any(), "flags: {:?}", sh.turns[0].flags);

    let open = converse(Config::default(), &mic, &sys);
    assert!(open.lanes[LANE_MIC].blocks[0].end_ns > 4300 * MS);
}

/// The system lane goes first: bot audio gates the mic samples of the same tick.
#[test]
fn bot_audio_gates_the_same_tick() {
    let mut cfg = Config::default();
    cfg.echo_gate.enabled = true;
    let mut sh = Shared::new(cfg);
    sh.start_session(0, None);
    let mut engine = Engine::new();
    engine.attach(LANE_MIC, 1);
    engine.attach(LANE_SYS, 2);
    engine.sync(LANE_MIC, &sync(0), false, key64(0.0));
    engine.sync(LANE_SYS, &sync(0), false, key64(0.0));
    engine.begin_tick(&mut sh, 0);
    let mut loud = vec![0.0f32; 16_000];
    place_burst(&mut loud, 100, 1000);
    let sys = Measured::of(&engine, LANE_SYS, &loud);
    let mic = Measured::of(&engine, LANE_MIC, &loud);
    engine.process_lanes(
        &mut sh,
        Some(&sys.batch()),
        Some(&mic.batch()),
        1000 * MS,
        &sample_ns,
        &sample_ns,
    );
    engine.end_tick(&mut sh);
    assert!(sh.lanes[LANE_SYS].open_start_ns.is_some());
    assert_eq!(sh.lanes[LANE_MIC].open_start_ns, None);
    assert_eq!(engine.consumed(LANE_MIC), 16_000);
}

/// With the tint on or off the session measures the same.
#[test]
fn tint_changes_no_metric() {
    let total = (SR * 6.0) as usize;
    let mut mic = vec![0.0f32; total];
    let mut sys = vec![0.0f32; total];
    place_burst(&mut mic, 500, 1500);
    place_burst(&mut sys, 2200, 3500);
    let run = |tint: bool| {
        let mut cfg = Config::default();
        cfg.vad_tint = tint;
        let mut sh = Shared::new(cfg);
        sh.start_session(0, None);
        let mut engine = Engine::new();
        engine.attach(LANE_MIC, 1);
        engine.attach(LANE_SYS, 2);
        for (m, s) in mic.chunks(1600).zip(sys.chunks(1600)) {
            let n = engine.consumed(LANE_MIC);
            engine.sync(LANE_MIC, &sync(n), false, key64(0.0));
            engine.sync(LANE_SYS, &sync(n), false, key64(0.0));
            let now = sample_ns(n + m.len() as u64);
            engine.begin_tick(&mut sh, now);
            let sys = Measured::of(&engine, LANE_SYS, s);
            let mic = Measured::of(&engine, LANE_MIC, m);
            engine.process_lanes(
                &mut sh,
                Some(&sys.batch()),
                Some(&mic.batch()),
                now,
                &sample_ns,
                &sample_ns,
            );
            if engine.vad_wanted(&sh) {
                let chunk =
                    ChunkProb { start_sample: n, end_sample: n + 1600, prob: key(0.9) };
                engine.speech_chunks(&mut sh, &[chunk], &sample_ns);
            }
            engine.end_tick(&mut sh);
        }
        sh
    };
    let (on, off) = (run(true), run(false));
    assert!(on.lanes[LANE_MIC].speech_open_ns.is_some());
    assert_eq!(off.lanes[LANE_MIC].speech_open_ns, None);
    assert_eq!(on.turns, off.turns);
    assert_eq!(on.turns.len(), 1);
    assert_eq!(on.interruptions, off.interruptions);
    for lane in [LANE_MIC, LANE_SYS] {
        assert_eq!(on.lanes[lane].blocks, off.lanes[lane].blocks);
        assert_eq!(on.lanes[lane].blocks.len(), 1);
        assert_eq!(on.lanes[lane].bins.level(0).len(), off.lanes[lane].bins.level(0).len());
    }
}

/// A block in progress at Stop is closed, and nothing is left open.
#[test]
fn stopping_closes_open_blocks() {
    let total = (SR * 2.0) as usize;
    let mut mic = vec![0.0f32; total];
    let sys = vec![0.0f32; total];
    place_burst(&mut mic, 1000, 2000);
    let sh = converse(Config::default(), &mic, &sys);
    assert_eq!(sh.lanes[LANE_MIC].blocks.len(), 1);
    assert_eq!(sh.lanes[LANE_MIC].open_start_ns, None);
    assert!(sh.lanes[LANE_MIC].blocks[0].end_ns > 1950 * MS);
}

/// Outside a session audio moves the meters and nothing else.
#[test]
fn idle_audio_leaves_no_trace() {
    let mut sh = Shared::new(Config::default());
    let mut engine = Engine::new();
    engine.attach(LANE_MIC, 1);
    engine.sync(LANE_MIC, &sync(0), false, key64(0.0));
    assert_eq!(engine.begin_tick(&mut sh, 0), Transition::Steady);
    let mut loud = vec![0.0f32; 16_000];
    place_burst(&mut loud, 0, 1000);
    feed(&mut engine, &mut sh, LANE_MIC, &loud, 0);
    engine.end_tick(&mut sh);
    assert!(sh.lanes[LANE_MIC].blocks.is_empty() && sh.lanes[LANE_MIC].open_start_ns.is_none());
    assert!(sh.lanes[LANE_MIC].bins.level(0).is_empty());
    assert_eq!(sh.lanes[LANE_MIC].last_sample_ns, 1_000_000_000);
    assert!(value(sh.lanes[LANE_MIC].level_db) > -10.0);
    assert_eq!(engine.consumed(LANE_MIC), 16_000);
    // What began before the session does not leak into it.
    sh.start_session(1_000_000_000, None);
    engine.begin_tick(&mut sh, 1_000_000_000);
    assert_eq!(engine.segmenter(LANE_MIC).active, None);
}

/// Samples that cannot be placed in time are counted and otherwise ignored.
#[test]
fn unplaced_samples_are_only_counted() {
    let mut sh = Shared::new(Config::default());
    sh.start_session(0, None);
    let mut engine = Engine::new();
    engine.attach(LANE_SYS, 1);
    engine.begin_tick(&mut sh, 0);
    let s = vec![key(0.9); 7];
    let batch = LaneBatch {
        samples: &s,
        det: &s,
        level_db: key(-1.0),
        window: 160,
        fine_samples: 1,
        amp_threshold: key(0.1),
        levels: &[],
    };
    engine.process_lanes(&mut sh, Some(&batch), None, 0, &sample_ns, &sample_ns);
    assert_eq!(engine.consumed(LANE_SYS), 7);
    assert_eq!(sh.lanes[LANE_SYS].level_db, key(-1.0));
    assert_eq!(sh.lanes[LANE_SYS].last_sample_ns, 0);
    assert!(sh.lanes[LANE_SYS].bins.level(0).is_empty());
}

/// A change of the output device ends bot audio, marks the timeline and flags
/// the next turn; a dead tap is reported.
#[test]
fn tap_trouble() {
    let mut sh = Shared::new(Config::default());
    sh.sys_status = SysStatus::Capturing;
    sh.start_session(0, None);
    let mut engine = Engine::new();
    engine.attach(LANE_SYS, 1);
    engine.sync(LANE_SYS, &sync(0), false, key64(0.0));
    engine.begin_tick(&mut sh, 0);
    let mut sys = vec![0.0f32; 16_000];
    place_burst(&mut sys, 100, 1000);
    feed(&mut engine, &mut sh, LANE_SYS, &sys, 1000 * MS);
    engine.tap_health(&mut sh, 1000 * MS, Some(1), false);
    engine.end_tick(&mut sh);
    assert_eq!(sh.discontinuities, vec![1000 * MS]);
    assert_eq!(sh.lanes[LANE_SYS].blocks.len(), 1);
    assert_eq!(sh.turns.len(), 1);
    engine.begin_tick(&mut sh, 1010 * MS);
    engine.tap_health(&mut sh, 1010 * MS, Some(1), true);
    assert_eq!(sh.discontinuities.len(), 1);
    match &sh.sys_status {
        SysStatus::Error(why) => assert_eq!(why, "system tap failed after device change"),
        _ => panic!("the failure must show"),
    }
    sh.sys_status = SysStatus::Unavailable("off".to_string());
    engine.tap_health(&mut sh, 1020 * MS, None, true);
    assert!(matches!(sh.sys_status, SysStatus::Unavailable(_)));
}

/// Classified speech is drawn within the session and touches nothing else.
#[test]
fn speech_is_for_display_only() {
    let mut sh = Shared::new(Config::default());
    let mut engine = Engine::new();
    sh.start_session(100 * MS, None);
    engine.begin_tick(&mut sh, 100 * MS);
    assert!(engine.vad_wanted(&sh));
    engine.vad_ready(&mut sh);
    let chunk = |start: u64, end: u64, prob: f32| ChunkProb {
        start_sample: start,
        end_sample: end,
        prob: key(prob),
    };
    let ms = |n: u64| n * MS;
    engine.speech_chunks(
        &mut sh,
        &[chunk(50, 200, 0.9), chunk(200, 300, 0.5), chunk(300, 540, 0.1)],
        &ms,
    );
    assert_eq!(sh.lanes[LANE_MIC].speech.len(), 1);
    assert_eq!(
        sh.lanes[LANE_MIC].speech[0],
        Block { start_ns: 100 * MS, end_ns: 300 * MS }
    );
    engine.speech_chunks(&mut sh, &[chunk(600, 700, 0.9)], &ms);
    assert_eq!(sh.lanes[LANE_MIC].speech_open_ns, Some(600 * MS));
    sh.stop_session(800 * MS);
    engine.begin_tick(&mut sh, 800 * MS);
    assert_eq!(sh.lanes[LANE_MIC].speech.len(), 2);
    assert!(sh.turns.is_empty() && sh.lanes[LANE_MIC].blocks.is_empty());
    engine.vad_broke(&mut sh, "no model".to_string());
    assert!(!engine.vad_wanted(&sh));
    assert_eq!(sh.vad_error.as_deref(), Some("no model"));
}

#[test]
fn recording_is_asked_for_once() {
    let mut cfg = Config::default();
    cfg.record_wav = true;
    let mut sh = Shared::new(cfg);
    let mut engine = Engine::new();
    sh.start_session(0, Some("dir".to_string()));
    assert_eq!(engine.begin_tick(&mut sh, 0), Transition::Started { record: true });
    assert!(engine.running());
    assert!(engine.take_wav_request(LANE_MIC) && !engine.take_wav_request(LANE_MIC));
    assert!(engine.take_wav_request(LANE_SYS));
    sh.phase = Phase::Stopped;
    assert_eq!(engine.begin_tick(&mut sh, 1), Transition::Stopped);
    sh.start_session(2, None);
    assert_eq!(engine.begin_tick(&mut sh, 2), Transition::Started { record: false });
}

/// Events of both lanes are put in time order; those of one moment keep theirs.
#[test]
fn events_are_ordered_by_time() {
    let e = |lane: usize, t_ns: u64| TickEvent { lane, t_ns, event: SegEvent::Open { t_ns } };
    let sorted = sort_by_time(&vec![e(1, 5), e(1, 9), e(0, 5), e(0, 2), e(0, 9)]);
    assert_eq!(sorted, vec![e(0, 2), e(1, 5), e(0, 5), e(1, 9), e(0, 9)]);
}

/// The offset is the smallest of the latest candidates.
#[test]
fn time_map_follows_the_minimum() {
    let mut map = TimeMap::new();
    assert!(!map.ready());
    let dead = SyncEvent { sample_rate: key64(0.0), ..sync(0) };
    map.on_sync(&dead, true, key64(-5.0));
    assert!(!map.ready());
    map.on_sync(&sync(0), false, key64(30.0));
    assert!(map.ready());
    assert_eq!(map.sample_rate(), key64(SR));
    map.on_sync(&sync(0), false, key64(40.0));
    assert_eq!(map.offset_ns(), key64(30.0));
    map.on_sync(&sync(0), false, key64(10.0));
    assert_eq!(map.offset_ns(), key64(10.0));
    // The minimum is forgotten once it leaves the window.
    for _ in 0..TIMEMAP_WINDOW - 1 {
        map.on_sync(&sync(0), false, key64(35.0));
        assert_eq!(map.offset_ns(), key64(10.0));
    }
    map.on_sync(&sync(0), false, key64(36.0));
    assert_eq!(map.offset_ns(), key64(35.0));
    // Another rate starts over.
    map.on_sync(&SyncEvent { sample_rate: key64(44_100.0), ..sync(0) }, true, key64(99.0));
    assert_eq!((map.offset_ns(), map.sample_rate()), (key64(99.0), key64(44_100.0)));
    map.reset();
    assert!(!map.ready());
}

#[test]
fn echo_gate_intervals() {
    let mut gate = EchoGate::default();
    assert!(!gate.gated(5, 300));
    gate.on_event(SegEvent::Open { t_ns: 1000 * MS });
    assert!(gate.gated(1000 * MS, 0) && gate.gated(u64::MAX, 0) && !gate.gated(1000 * MS - 1, 0));
    gate.on_event(SegEvent::Close { t_ns: 2000 * MS });
    assert!(gate.gated(2300 * MS, 300) && !gate.gated(2300 * MS + 1, 300));
    // A blip too short to count still gates the mic for a moment.
    gate.on_event(SegEvent::Open { t_ns: 5000 * MS });
    gate.on_event(SegEvent::Cancel);
    assert!(gate.gated(5100 * MS, 0) && !gate.gated(5100 * MS + 1, 0));
    gate.on_event(SegEvent::Cancel);
    // A close without an open gates its own moment.
    gate.on_event(SegEvent::Close { t_ns: 7000 * MS });
    assert!(gate.gated(7000 * MS, 0) && !gate.gated(7000 * MS - 1, 0));
    gate.on_event(SegEvent::Open { t_ns: 8000 * MS });
    gate.on_device_change(8500 * MS);
    assert!(gate.gated(8500 * MS, 0) && !gate.gated(8500 * MS + 1, 0));
    gate.on_device_change(9000 * MS);
    assert!(!gate.gated(9000 * MS, 0));
    gate.clear();
    assert!(!gate.gated(1500 * MS, 300));
}
