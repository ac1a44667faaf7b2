use pipecat_audio_metrics::analysis::turns::{InterruptionRecord, TurnFlags, TurnRecord};
use pipecat_audio_metrics::audio::{LANE_MIC, LANE_SYS};
use pipecat_audio_metrics::config::Config;
use pipecat_audio_metrics::millis::{Millis, SignedMillis};
use pipecat_audio_metrics::protocol::EventCategory;
use pipecat_audio_metrics::scalar::Scalar32;
use pipecat_audio_metrics::session::{Block, BridgeEvent, Phase, Shared, SysStatus};
use pipecat_audio_metrics::ui::controls::{
    bridge_chip, meter_color, shown_threshold, sys_dot, ControlsOutput,
};
use pipecat_audio_metrics::ui::live_metrics::{
    bridge_line, flagged_turns, last_latency, last_stop, truncate,
};
use pipecat_audio_metrics::ui::results::{
    histogram_bins, tallest, zoom_span, ResultsOutput, ZoomSpan,
};
use pipecat_audio_metrics::ui::timeline::{
    block_spans, interruption_span, latency_gaps, prev_audio_edge, shows_idle_hint,
    speech_in_block, speech_spans, AudioEdge, LatencyGap, Span,
};
use pipecat_audio_metrics::ui::{
    category_color, interruption_colors, lane_palette, latency_color, shown_events, Effects,
    Grade, Intensity, Rgb,
};

const MS: u64 = 1_000_000;

fn ms(n: u64) -> Millis {
    Millis { ns: n * MS }
}

fn key(x: f32) -> Scalar32 {
    Scalar32::from_bits(x.to_bits()).unwrap()
}

fn turn(latency: Option<Millis>, flags: TurnFlags) -> TurnRecord {
    TurnRecord {
        index: 0,
        user_end_ns: Some(3000 * MS),
        user_start_ns: Some(2000 * MS),
        bot_onset_ns: 3800 * MS,
        bot_group_end_ns: None,
        latency_ms: latency,
        user_response_ms: None,
        provisional: false,
        flags,
    }
}

fn running() -> Shared {
    let mut sh = Shared::new(Config::default());
    sh.start_session(1000 * MS, None);
    sh
}

fn named(name: &str) -> BridgeEvent {
    BridgeEvent { t_ns: 0, name: name.to_string(), source: String::new(), meta: None }
}

#[test]
fn latencies_are_graded() {
    let green = Rgb::new(56, 166, 87);
    let amber = Rgb::new(219, 158, 0);
    let red = Rgb::new(214, 72, 61);
    assert_eq!(latency_color(Millis { ns: 500 * MS - 1 }), green);
    assert_eq!(latency_color(ms(500)), amber);
    assert_eq!(latency_color(Millis { ns: 1000 * MS - 1 }), amber);
    assert_eq!(latency_color(ms(1000)), red);
    assert_eq!(meter_color(key(-11.9)), red);
    assert_eq!(meter_color(key(-12.0)), amber);
    assert_eq!(meter_color(key(-30.0)), green);
    assert_eq!(Grade::Bad.color(), red);
}

#[test]
fn colours() {
    assert_eq!(lane_palette(true, LANE_MIC).fill, Rgb::new(42, 62, 32));
    assert_eq!(lane_palette(false, LANE_MIC).label, Rgb::new(85, 139, 47));
    assert_eq!(lane_palette(true, LANE_SYS).bar, Rgb::new(144, 180, 250));
    assert_eq!(lane_palette(false, LANE_SYS).bar, Rgb::new(48, 79, 158));
    assert_eq!(interruption_colors(true).1, Rgb::new(250, 204, 21));
    assert_eq!(interruption_colors(false).0, Rgb::new(253, 230, 138));
    for a in EventCategory::ALL {
        for b in EventCategory::ALL {
            assert_eq!(category_color(a) == category_color(b), a == b);
        }
    }
}

#[test]
fn filter_decides_which_events_are_listed() {
    let mut sh = running();
    for name in ["user_x", "llm_metrics", "bot_ready"] {
        sh.events.push(named(name));
    }
    assert_eq!(shown_events(&sh), vec![0, 2]);
    sh.cfg.event_filter.set(EventCategory::Metrics, true);
    sh.cfg.event_filter.set(EventCategory::User, false);
    assert_eq!(shown_events(&sh), vec![1, 2]);
}

/// A lane flashes when the speaker switches to it, not when the same speaker
/// goes on.
#[test]
fn speaker_switches_flash() {
    let mut sh = running();
    let mut e = Effects::default();
    sh.lanes[LANE_MIC].open_start_ns = Some(1);
    e.update(&sh, 10);
    assert_eq!((e.mic.flash_ns, e.sys.flash_ns), (Some(10), None));
    sh.lanes[LANE_MIC].open_start_ns = None;
    e.update(&sh, 20);
    sh.lanes[LANE_MIC].open_start_ns = Some(2);
    e.update(&sh, 30);
    assert_eq!(e.mic.flash_ns, Some(10));
    sh.lanes[LANE_SYS].open_start_ns = Some(3);
    e.update(&sh, 40);
    assert_eq!((e.mic.flash_ns, e.sys.flash_ns), (Some(10), Some(40)));
    sh.turns.push(turn(None, TurnFlags::default()));
    e.update(&sh, 50);
    assert_eq!(e.turn_flash_ns, None);
    sh.turns.push(turn(Some(ms(1)), TurnFlags::default()));
    e.update(&sh, 60);
    assert_eq!(e.turn_flash_ns, Some(60));
    e.update(&sh, 70);
    assert_eq!(e.turn_flash_ns, Some(60));
    sh.phase = Phase::Stopped;
    e.update(&sh, 80);
    assert!(!e.mic.prev_open && !e.sys.prev_open);
}

#[test]
fn flashes_fade() {
    let mut e = Effects::default();
    assert_eq!(e.turn_intensity(5), Intensity { num: 0, den: 1 });
    e.turn_flash_ns = Some(100);
    e.sys.flash_ns = Some(0);
    let full = e.turn_intensity(100);
    assert_eq!(full.num, full.den);
    let half = e.turn_intensity(100 + 450 * MS);
    assert_eq!(half.num * 4, half.den);
    assert_eq!(e.turn_intensity(100 + 900 * MS).num, 0);
    assert_eq!(e.lane_intensity(LANE_MIC, 0).num, 0);
    let fifth = e.lane_intensity(LANE_SYS, 520 * MS);
    assert_eq!(fifth.num * 25, fifth.den);
    assert_eq!(e.lane_intensity(LANE_SYS, 650 * MS).num, 0);
}

#[test]
fn control_bar() {
    let mut sh = running();
    let mut cfg = Config::default();
    sh.lanes[LANE_SYS].effective_threshold_db = key(-61.0);
    assert_eq!(shown_threshold(&cfg, &sh, LANE_SYS), key(-50.0));
    cfg.set_auto_threshold(true);
    assert_eq!(shown_threshold(&cfg, &sh, LANE_SYS), key(-61.0));

    let grey = Rgb::new(140, 140, 140);
    assert_eq!(bridge_chip(&cfg, &sh), ("bridge error".to_string(), Grade::Bad.color()));
    sh.bridge.error = Some("port taken".to_string());
    assert_eq!(bridge_chip(&cfg, &sh).0, "port taken");
    sh.bridge_started(8123);
    assert_eq!(bridge_chip(&cfg, &sh), ("bridge :8123 \u{b7} 0".to_string(), grey));
    sh.client_connected();
    assert_eq!(
        bridge_chip(&cfg, &sh),
        ("bridge :8123 \u{b7} 1".to_string(), Grade::Good.color())
    );
    cfg.bridge.enabled = false;
    assert_eq!(bridge_chip(&cfg, &sh), ("bridge off".to_string(), Rgb::new(130, 130, 130)));

    assert_eq!(sys_dot(&sh.sys_status), (grey, "not started".to_string()));
    assert_eq!(
        sys_dot(&SysStatus::Capturing),
        (Grade::Good.color(), "System audio tap running".to_string())
    );
    assert_eq!(sys_dot(&SysStatus::Error("x".to_string())), (Grade::Bad.color(), "x".to_string()));

    let mut out = ControlsOutput::default();
    out.port_entered(&mut cfg, 8123);
    assert!(!out.restart_bridge);
    out.port_entered(&mut cfg, 9000);
    assert!(out.restart_bridge);
    assert_eq!(cfg.bridge.port, 9000);
    out.input_chosen(&mut cfg, Some("USB".to_string()));
    assert_eq!(cfg.input_device.as_deref(), Some("USB"));
    out.system_source_chosen(&mut cfg, "monitor".to_string());
    assert_eq!(cfg.linux_system_device.as_deref(), Some("monitor"));
    assert!(out.apply_devices);
}

#[test]
fn live_panel() {
    let mut sh = running();
    assert_eq!((last_latency(&sh), last_stop(&sh), flagged_turns(&sh)), (None, None, 0));
    let flagged = TurnFlags { barge_in: true, ..TurnFlags::default() };
    sh.turns.push(turn(Some(ms(700)), flagged));
    sh.turns.push(turn(None, TurnFlags::default()));
    assert_eq!((last_latency(&sh), flagged_turns(&sh)), (Some(ms(700)), 1));
    sh.interruptions.push(InterruptionRecord {
        mic_open_ns: 0,
        sys_stop_ns: Some(5 * MS),
        stop_ms: Some(ms(5)),
    });
    sh.interruptions.push(InterruptionRecord { mic_open_ns: 9, sys_stop_ns: None, stop_ms: None });
    assert_eq!(last_stop(&sh), Some(ms(5)));
    assert_eq!(bridge_line(&sh), ("not running".to_string(), true));
    sh.bridge_started(8123);
    assert_eq!(bridge_line(&sh), ("ws://localhost:8123 \u{2014} 0 clients".to_string(), false));
    sh.client_connected();
    assert_eq!(bridge_line(&sh).0, "ws://localhost:8123 \u{2014} 1 client");
    sh.cfg.bridge.enabled = false;
    assert_eq!(bridge_line(&sh), ("disabled".to_string(), false));
    assert_eq!(truncate("abc", 3), "abc");
    assert_eq!(truncate("abcd", 3), "ab\u{2026}");
    assert_eq!(truncate("\u{e9}\u{e9}\u{e9}", 2), "\u{e9}\u{2026}");
    assert_eq!(truncate("abcd", 0), "\u{2026}");
}

#[test]
fn results_panel() {
    assert_eq!(
        [0, 11, 12, 13, 14, 49, 50, 1000].map(histogram_bins),
        [6, 6, 6, 6, 7, 24, 24, 24]
    );
    assert_eq!(tallest(&vec![]), 1);
    assert_eq!(tallest(&vec![2, 9, 4]), 9);
    let mut sh = running();
    sh.turns.push(turn(None, TurnFlags::default()));
    assert_eq!(
        zoom_span(&sh, 0),
        Some(ZoomSpan { start_ns: 2_000_000_000, end_ns: 2_800_000_000 })
    );
    sh.turns[0].user_end_ns = None;
    sh.turns[0].bot_onset_ns = 1500 * MS;
    sh.turns[0].bot_group_end_ns = Some(1800 * MS);
    assert_eq!(
        zoom_span(&sh, 0),
        Some(ZoomSpan { start_ns: -500_000_000, end_ns: 800_000_000 })
    );
    assert_eq!(zoom_span(&sh, 1), None);
    assert_eq!(ResultsOutput::default().zoom_to_turn, None);
}

#[test]
fn timeline_spans() {
    let mut sh = running();
    sh.lanes[LANE_MIC].blocks.push(Block { start_ns: 1200 * MS, end_ns: 1500 * MS });
    sh.lanes[LANE_MIC].open_start_ns = Some(1900 * MS);
    sh.lanes[LANE_MIC].speech.push(Block { start_ns: 1100 * MS, end_ns: 1300 * MS });
    let blocks = block_spans(&sh, LANE_MIC, 2000 * MS);
    assert_eq!(
        blocks,
        vec![
            Span { start_ms: ms(200), end_ms: ms(500), is_open: false },
            Span { start_ms: ms(900), end_ms: ms(1000), is_open: true },
        ]
    );
    let speech = speech_spans(&sh, LANE_MIC, 2000 * MS);
    assert_eq!(speech.len(), 1);
    assert_eq!(speech_in_block(&speech[0], &blocks[0]), Some((ms(200), ms(300))));
    assert_eq!(speech_in_block(&speech[0], &blocks[1]), None);
    assert!(speech_spans(&sh, LANE_SYS, 2000 * MS).is_empty());
    sh.vad_error = Some("no model".to_string());
    assert!(speech_spans(&sh, LANE_MIC, 2000 * MS).is_empty());
    sh.turns.push(turn(Some(ms(800)), TurnFlags::default()));
    sh.turns.push(turn(None, TurnFlags::default()));
    assert_eq!(
        latency_gaps(&sh),
        vec![LatencyGap { start_ms: ms(2000), end_ms: ms(2800), latency_ms: ms(800) }]
    );
    assert!(!shows_idle_hint(&sh));
    assert!(shows_idle_hint(&Shared::new(Config::default())));
}

#[test]
fn timeline_interruptions() {
    let mut sh = running();
    sh.interruptions.push(InterruptionRecord {
        mic_open_ns: 3000 * MS,
        sys_stop_ns: None,
        stop_ms: None,
    });
    sh.events.push(BridgeEvent { t_ns: 3100 * MS, ..named("user_started_speaking") });
    let i = interruption_span(&sh, 0, 3500 * MS);
    assert_eq!(i.span, Span { start_ms: ms(2000), end_ms: ms(2500), is_open: true });
    assert_eq!(i.register_ms, Some(SignedMillis { ns: 100 * MS as i64 }));
    sh.interruptions[0].sys_stop_ns = Some(3400 * MS);
    assert_eq!(
        interruption_span(&sh, 0, 3500 * MS).span,
        Span { start_ms: ms(2000), end_ms: ms(2400), is_open: false }
    );
}

/// The latest edge at or before the time asked for, the mic's where both lanes
/// have one.
#[test]
fn previous_edge() {
    let mut sh = running();
    assert_eq!(prev_audio_edge(&sh, 5), None);
    sh.lanes[LANE_MIC].blocks.push(Block { start_ns: 10, end_ns: 20 });
    sh.lanes[LANE_SYS].blocks.push(Block { start_ns: 20, end_ns: 40 });
    sh.lanes[LANE_MIC].open_start_ns = Some(30);
    assert_eq!(prev_audio_edge(&sh, 9), None);
    let edge = |t_ns: u64, lane: usize, is_end: bool| Some(AudioEdge { t_ns, lane, is_end });
    assert_eq!(prev_audio_edge(&sh, 10), edge(10, LANE_MIC, false));
    assert_eq!(prev_audio_edge(&sh, 25), edge(20, LANE_MIC, true));
    assert_eq!(prev_audio_edge(&sh, 35), edge(30, LANE_MIC, false));
    assert_eq!(prev_audio_edge(&sh, 99), edge(40, LANE_SYS, true));
}
