use pipecat_audio_metrics::analysis::segmenter::{SegEvent, Segmenter, WindowLevel};
use pipecat_audio_metrics::config::SegmenterConfig;
use pipecat_audio_metrics::scalar::Scalar32;

fn key(x: f32) -> Scalar32 {
    Scalar32::from_bits(x.to_bits()).unwrap()
}

fn value(s: Scalar32) -> f32 {
    f32::from_bits(s.to_bits())
}

/// Measures windows as the segmenter's caller does.
struct Meter {
    sum_sq: f64,
    n: usize,
    noise_floor_db: f32,
}

impl Meter {
    fn new() -> Meter {
        Meter { sum_sq: 0.0, n: 0, noise_floor_db: -70.0 }
    }

    fn levels(&mut self, samples: &[f32], window: usize) -> Vec<WindowLevel> {
        let mut out = Vec::new();
        for &s in samples {
            self.sum_sq += (s as f64) * (s as f64);
            self.n += 1;
            if self.n >= window {
                let mean_sq = self.sum_sq / self.n as f64;
                let rms_db = 10.0 * (mean_sq + 1e-12).log10() as f32;
                if rms_db < self.noise_floor_db + 3.0 {
                    self.noise_floor_db += 0.05 * (rms_db - self.noise_floor_db);
                } else {
                    self.noise_floor_db += 0.02;
                }
                out.push(WindowLevel {
                    rms_db: key(rms_db),
                    auto_threshold_db: key(self.noise_floor_db + 12.0),
                });
                self.sum_sq = 0.0;
                self.n = 0;
            }
        }
        out
    }
}

struct Rig {
    seg: Segmenter,
    meter: Meter,
}

impl Rig {
    fn new() -> Rig {
        Rig { seg: Segmenter::new(), meter: Meter::new() }
    }

    fn process(
        &mut self,
        signal: &[f32],
        base: u64,
        sr: f64,
        cfg: &SegmenterConfig,
        gated: &impl Fn(u64) -> bool,
        out: &mut Vec<SegEvent>,
    ) {
        let sample_ns = |n: u64| (n as f64 / sr * 1e9) as u64;
        let window = ((sr * 10.0 / 1000.0) as usize).max(1);
        let levels = self.meter.levels(signal, window);
        assert_eq!(levels.len(), self.seg.windows_completed(signal.len(), window));
        let amp = 10f32.powf(value(self.seg.effective_threshold_db) / 20.0);
        let samples: Vec<Scalar32> = signal.iter().map(|&s| key(s)).collect();
        self.seg.process(
            &samples,
            base,
            Some(window),
            key(amp),
            &levels,
            cfg,
            &sample_ns,
            gated,
            out,
        );
    }
}

fn run(signal: &[f32], sr: f64, cfg: &SegmenterConfig) -> Vec<SegEvent> {
    let mut rig = Rig::new();
    let mut out = Vec::new();
    rig.process(signal, 0, sr, cfg, &|_t: u64| false, &mut out);
    rig.seg.finalize(cfg, &mut out);
    out
}

fn burst_signal(sr: usize, pre_ms: u64, burst_ms: u64, post_ms: u64, amp: f32) -> Vec<f32> {
    let ms = |m: u64| m as usize * sr / 1000;
    let mut v = vec![0.0f32; ms(pre_ms)];
    for i in 0..ms(burst_ms) {
        v.push(amp * (i as f32 * 0.3).sin());
    }
    v.extend(vec![0.0f32; ms(post_ms)]);
    v
}

#[test]
fn detects_burst_with_precise_edges() {
    let sr = 48000usize;
    let cfg = SegmenterConfig::default();
    let signal = burst_signal(sr, 500, 400, 800, 0.5);
    let events = run(&signal, sr as f64, &cfg);
    assert_eq!(events.len(), 2, "events: {events:?}");
    let SegEvent::Open { t_ns: open } = events[0] else {
        panic!("expected open, got {events:?}")
    };
    let SegEvent::Close { t_ns: close } = events[1] else {
        panic!("expected close, got {events:?}")
    };
    let open_ms = open as f64 / 1e6;
    let close_ms = close as f64 / 1e6;
    assert!((open_ms - 500.0).abs() < 15.0, "open at {open_ms}");
    assert!((close_ms - 900.0).abs() < 15.0, "close at {close_ms}");
}

#[test]
fn short_click_is_cancelled() {
    let sr = 48000usize;
    let cfg = SegmenterConfig::default(); // min_block 100ms
    let signal = burst_signal(sr, 300, 40, 600, 0.8);
    let events = run(&signal, sr as f64, &cfg);
    assert_eq!(events.len(), 2);
    assert!(matches!(events[0], SegEvent::Open { .. }));
    assert_eq!(events[1], SegEvent::Cancel);
}

#[test]
fn intra_speech_pause_shorter_than_hangover_stays_one_block() {
    let sr = 48000usize;
    let cfg = SegmenterConfig::default(); // hangover 250ms
    let ms = |m: usize| m * sr / 1000;
    let mut signal = vec![0.0f32; ms(200)];
    for i in 0..ms(300) {
        signal.push(0.5 * (i as f32 * 0.3).sin());
    }
    signal.extend(vec![0.0f32; ms(150)]); // pause < hangover
    for i in 0..ms(300) {
        signal.push(0.5 * (i as f32 * 0.3).sin());
    }
    signal.extend(vec![0.0f32; ms(600)]);
    let events = run(&signal, sr as f64, &cfg);
    let opens = events
        .iter()
        .filter(|e| matches!(e, SegEvent::Open { .. }))
        .count();
    assert_eq!(opens, 1, "events: {events:?}");
}

/// Deterministic uniform noise at the given peak amplitude.
fn noise(n: usize, amp: f32) -> Vec<f32> {
    (0..n)
        .map(|i| {
            let h = (i as u32).wrapping_mul(2654435761);
            ((h >> 8) as f32 / (1u32 << 24) as f32 - 0.5) * 2.0 * amp
        })
        .collect()
}

/// Session start must not re-open blocks on room ambient: the threshold
/// adapted while idle survives `abort_block`, so the first block of a session
/// starts at speech onset, not at the Start press.
#[test]
fn abort_block_keeps_adapted_floor() {
    let sr = 48_000.0;
    let cfg = SegmenterConfig { auto_threshold: true, ..SegmenterConfig::default() };
    let gated = |_t: u64| false;
    // Ambient at about -40 dB RMS opens a block on a freshly reset segmenter
    // (the threshold starts near -58 dB).
    let ambient = noise((sr * 2.0) as usize, 0.0173);
    let mut fresh = Rig::new();
    let mut out = Vec::new();
    fresh.process(&ambient, 0, sr, &cfg, &gated, &mut out);
    assert!(
        out.iter().any(|e| matches!(e, SegEvent::Open { .. })),
        "ambient should trip a cold segmenter: {out:?}"
    );

    // Warm up on 20s of the same ambient, then "start a session".
    let mut rig = Rig::new();
    let mut consumed: u64 = 0;
    let mut warm = Vec::new();
    let warmup = noise((sr * 20.0) as usize, 0.0173);
    rig.process(&warmup, consumed, sr, &cfg, &gated, &mut warm);
    consumed += warmup.len() as u64;
    rig.seg.abort_block();

    // Ambient after start: no blocks.
    let mut out = Vec::new();
    rig.process(&ambient, consumed, sr, &cfg, &gated, &mut out);
    consumed += ambient.len() as u64;
    assert!(out.is_empty(), "ambient after warm start: {out:?}");

    // Speech still opens a block, backdated to its own onset.
    let speech_at_ms = consumed as f64 / sr * 1000.0;
    let mut signal: Vec<f32> = (0..(sr * 0.4) as usize)
        .map(|i| 0.5 * (i as f32 * 0.3).sin())
        .collect();
    signal.extend(noise((sr * 0.8) as usize, 0.0173));
    rig.process(&signal, consumed, sr, &cfg, &gated, &mut out);
    rig.seg.finalize(&cfg, &mut out);
    let SegEvent::Open { t_ns } = out[0] else {
        panic!("expected open, got {out:?}")
    };
    let open_ms = t_ns as f64 / 1e6;
    assert!(
        (open_ms - speech_at_ms).abs() < 15.0,
        "open at {open_ms}, speech at {speech_at_ms}"
    );
}

#[test]
fn gate_suppresses_activity() {
    let sr = 48000usize;
    let cfg = SegmenterConfig::default();
    let signal = burst_signal(sr, 200, 400, 400, 0.5);
    let mut rig = Rig::new();
    let mut out = Vec::new();
    rig.process(&signal, 0, sr as f64, &cfg, &|_t: u64| true, &mut out);
    rig.seg.finalize(&cfg, &mut out);
    assert!(out.is_empty(), "events: {out:?}");
}

fn loud() -> WindowLevel {
    WindowLevel { rms_db: key(-10.0), auto_threshold_db: key(-58.0) }
}

fn quiet() -> WindowLevel {
    WindowLevel { rms_db: key(-100.0), auto_threshold_db: key(-58.0) }
}

/// Feeds windows of four samples, 1 ms apart; the samples of a loud window are
/// 0, 1, 0.5, 0 and those of a quiet one silence.
fn feed(seg: &mut Segmenter, from: u64, windows: &[bool], cfg: &SegmenterConfig) -> Vec<SegEvent> {
    feed_gated(seg, from, windows, cfg, u64::MAX)
}

/// The same, with everything from `gate_ns` on to be ignored.
fn feed_gated(
    seg: &mut Segmenter,
    from: u64,
    windows: &[bool],
    cfg: &SegmenterConfig,
    gate_ns: u64,
) -> Vec<SegEvent> {
    let mut samples = Vec::new();
    let mut levels = Vec::new();
    for &is_loud in windows {
        let shape: [f32; 4] = if is_loud { [0.0, 1.0, -0.5, 0.0] } else { [0.0; 4] };
        samples.extend(shape.iter().map(|&s| key(s)));
        levels.push(if is_loud { loud() } else { quiet() });
    }
    let mut out = Vec::new();
    seg.process(
        &samples,
        from,
        Some(4),
        key(0.25),
        &levels,
        cfg,
        &|n: u64| n * 1_000_000,
        &|t: u64| t >= gate_ns,
        &mut out,
    );
    out
}

/// Edges stand at the first and last samples over the threshold; the block ends
/// once silence has lasted for the hangover, and its end is backdated.
#[test]
fn edges_are_exact() {
    let cfg = SegmenterConfig { hangover_ms: 5, min_block_ms: 1, ..SegmenterConfig::default() };
    let mut seg = Segmenter::new();
    let events = feed(&mut seg, 0, &[false, true, false, false, false], &cfg);
    assert_eq!(
        events,
        vec![SegEvent::Open { t_ns: 5_000_000 }, SegEvent::Close { t_ns: 6_000_000 }]
    );
    assert_eq!(seg.active, None);
    assert_eq!(seg.window_start_sample, 20);
}

/// Gated sound does not extend a block in progress: it ends where it was last
/// heard, once the hangover has passed.
#[test]
fn gated_sound_does_not_extend_a_block() {
    let cfg = SegmenterConfig { hangover_ms: 9, min_block_ms: 1, ..SegmenterConfig::default() };
    let windows = [true, true, true, true, false];
    let mut seg = Segmenter::new();
    let events = feed_gated(&mut seg, 0, &windows, &cfg, 8_000_000);
    assert_eq!(
        events,
        vec![SegEvent::Open { t_ns: 1_000_000 }, SegEvent::Close { t_ns: 2_000_000 }]
    );
    let mut heard = Segmenter::new();
    let events = feed(&mut heard, 0, &windows, &cfg);
    assert_eq!(events, vec![SegEvent::Open { t_ns: 1_000_000 }]);
    assert_eq!(heard.active.map(|b| b.last_above_ns), Some(14_000_000));
}

/// Over several calls edge times never decrease, and a close lies at least the
/// hangover before the stream's last sample.
#[test]
fn edge_times_ascend_over_calls() {
    let cfg = SegmenterConfig { hangover_ms: 7, min_block_ms: 1, ..SegmenterConfig::default() };
    let mut seg = Segmenter::new();
    let mut last_ns = 0;
    let mut edges = 0;
    for call in 0..12u64 {
        let windows: Vec<bool> = (0..5).map(|i| (call * 5 + i) % 9 < 3).collect();
        for event in feed(&mut seg, call * 20, &windows, &cfg) {
            let t_ns = match event {
                SegEvent::Open { t_ns } => t_ns,
                SegEvent::Close { t_ns } => {
                    assert!(t_ns + 7_000_000 <= (call + 1) * 20_000_000);
                    t_ns
                }
                SegEvent::Cancel => last_ns,
            };
            assert!(t_ns >= last_ns);
            last_ns = t_ns;
            edges += 1;
        }
    }
    assert!(edges > 8);
}

/// A block of exactly the minimum counts, a shorter one does not.
#[test]
fn minimum_block_is_inclusive() {
    for (min_block_ms, expected) in [(1, SegEvent::Close { t_ns: 2_000_000 }), (2, SegEvent::Cancel)]
    {
        let cfg = SegmenterConfig { hangover_ms: 4, min_block_ms, ..SegmenterConfig::default() };
        let mut seg = Segmenter::new();
        let events = feed(&mut seg, 0, &[true, false, false], &cfg);
        assert_eq!(events, vec![SegEvent::Open { t_ns: 1_000_000 }, expected]);
    }
}

/// How the stream is cut into batches does not matter.
#[test]
fn batches_join() {
    let cfg = SegmenterConfig { hangover_ms: 6, min_block_ms: 1, ..SegmenterConfig::default() };
    let windows = [true, false, true, true, false, false, false, true];
    let mut whole = Segmenter::new();
    let all = feed(&mut whole, 0, &windows, &cfg);
    let mut parts = Segmenter::new();
    let mut joined = feed(&mut parts, 0, &windows[..3], &cfg);
    joined.extend(feed(&mut parts, 12, &windows[3..], &cfg));
    assert_eq!(joined, all);
    assert_eq!(parts, whole);
}

/// Edges alternate, beginning with an open.
#[test]
fn edges_alternate() {
    let cfg = SegmenterConfig { hangover_ms: 3, min_block_ms: 2, ..SegmenterConfig::default() };
    let mut seg = Segmenter::new();
    let windows: Vec<bool> = (0..40).map(|i| i % 7 < 2).collect();
    let events = feed(&mut seg, 0, &windows, &cfg);
    assert!(events.len() > 6);
    for (k, e) in events.iter().enumerate() {
        assert_eq!(matches!(e, SegEvent::Open { .. }), k % 2 == 0);
    }
}

/// The automatic threshold never falls below its floor.
#[test]
fn automatic_threshold_has_a_floor() {
    let cfg = SegmenterConfig { auto_threshold: true, ..SegmenterConfig::default() };
    for (auto, expected) in [(-90.0f32, -65.0f32), (-40.0, -40.0)] {
        let mut seg = Segmenter::new();
        let level = WindowLevel { rms_db: key(-100.0), auto_threshold_db: key(auto) };
        let mut out = Vec::new();
        seg.process(
            &[key(0.0)],
            0,
            Some(1),
            key(0.1),
            &[level],
            &cfg,
            &|n: u64| n,
            &|_t: u64| false,
            &mut out,
        );
        assert_eq!(value(seg.effective_threshold_db), expected);
    }
}

/// Without a usable rate nothing happens, and a block in progress ends at the
/// end of the session.
#[test]
fn no_rate_and_finalize() {
    let cfg = SegmenterConfig { min_block_ms: 1, ..SegmenterConfig::default() };
    let mut seg = Segmenter::new();
    let mut out = Vec::new();
    seg.process(
        &[key(1.0)],
        0,
        None,
        key(0.1),
        &[],
        &cfg,
        &|n: u64| n,
        &|_t: u64| false,
        &mut out,
    );
    assert_eq!(seg, Segmenter::new());
    let events = feed(&mut seg, 0, &[true], &cfg);
    assert_eq!(events, vec![SegEvent::Open { t_ns: 1_000_000 }]);
    seg.finalize(&cfg, &mut out);
    assert_eq!(out, vec![SegEvent::Close { t_ns: 2_000_000 }]);
    seg.finalize(&cfg, &mut out);
    assert_eq!(out.len(), 1);
    seg.reset();
    assert_eq!(seg, Segmenter::new());
}
