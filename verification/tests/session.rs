use pipecat_audio_metrics::analysis::bins::Bin;
use pipecat_audio_metrics::analysis::rtvi::{interruption_register_ms, rtvi_deltas};
use pipecat_audio_metrics::analysis::turns::{InterruptionRecord, TurnFlags, TurnRecord};
use pipecat_audio_metrics::app::{
    problems, repaint_after_ms, session_action, toast_visible, SessionAction,
};
use pipecat_audio_metrics::audio::{DeviceInfo, LANE_MIC, LANE_SYS};
use pipecat_audio_metrics::config::Config;
use pipecat_audio_metrics::export::session_report;
use pipecat_audio_metrics::millis::{Millis, SignedMillis};
use pipecat_audio_metrics::protocol::Parsed;
use pipecat_audio_metrics::scalar::{Scalar32, Scalar64};
use pipecat_audio_metrics::session::{Block, BridgeEvent, Phase, Reply, Shared, SysStatus};
use pipecat_audio_metrics::ui::controls::ControlsOutput;

const MS: u64 = 1_000_000;

fn ms(n: u64) -> Millis {
    Millis { ns: n * MS }
}

fn event(name: &str) -> Parsed {
    Parsed::Event {
        name: name.to_string(),
        source: "test".to_string(),
        meta: Some(serde_json::Value::from(7)),
    }
}

fn turn(index: usize) -> TurnRecord {
    TurnRecord {
        index,
        user_end_ns: Some(3000 * MS),
        user_start_ns: Some(2000 * MS),
        bot_onset_ns: 3800 * MS,
        bot_group_end_ns: Some(5000 * MS),
        latency_ms: Some(ms(800)),
        user_response_ms: None,
        provisional: false,
        flags: TurnFlags::default(),
    }
}

fn device(latency: u64, is_bluetooth: bool) -> DeviceInfo {
    let zero = Millis { ns: 0 };
    DeviceInfo {
        name: "d".to_string(),
        device_latency_ms: zero,
        safety_offset_ms: zero,
        buffer_ms: zero,
        stream_latency_ms: zero,
        total_latency_ms: ms(latency),
        sample_rate: Scalar64 { rank: 0 },
        transport: "USB".to_string(),
        is_bluetooth,
    }
}

fn bridge_event(t_ms: u64, name: &str) -> BridgeEvent {
    BridgeEvent {
        t_ns: t_ms * MS,
        name: name.to_string(),
        source: "test".to_string(),
        meta: None,
    }
}

#[test]
fn events_are_kept_only_while_running() {
    let mut sh = Shared::new(Config::default());
    assert_eq!(sh.on_message(event("early"), 5), Reply::Silent);
    assert!(sh.events.is_empty());
    assert_eq!(sh.bridge.last_event, Some(("early".to_string(), 5)));
    sh.start_session(10, Some("dir".to_string()));
    assert_eq!(sh.on_message(event("user_stopped_speaking"), 20), Reply::Silent);
    assert_eq!(sh.events.len(), 1);
    assert_eq!(sh.events[0].name, "user_stopped_speaking");
    assert_eq!(sh.events[0].source, "test");
    assert_eq!(sh.events[0].t_ns, 20);
    assert_eq!(sh.events[0].meta, Some(serde_json::Value::from(7)));
    assert_eq!(sh.on_message(Parsed::Ping, 30), Reply::Pong { recv_ns: 30 });
    assert_eq!(sh.on_message(Parsed::Hello, 31), Reply::Hello);
    assert_eq!(sh.on_message(Parsed::Ignored, 32), Reply::Silent);
    assert_eq!(sh.events.len(), 1);
    assert_eq!(sh.bridge.last_event, Some(("user_stopped_speaking".to_string(), 20)));
}

#[test]
fn sessions_follow_each_other() {
    let mut sh = Shared::new(Config::default());
    assert!(sh.phase == Phase::Idle);
    match &sh.sys_status {
        SysStatus::Unavailable(why) => assert_eq!(why, "not started"),
        _ => panic!("nothing was started"),
    }
    sh.stop_session(3);
    assert_eq!((sh.phase, sh.session_end_ns), (Phase::Idle, 0));
    sh.start_session(100 * MS, None);
    assert_eq!(sh.session_duration_ms(350 * MS), ms(250));
    assert_eq!(sh.rel_ms(350 * MS), ms(250));
    assert_eq!(sh.rel_ms(50 * MS), ms(0));
    sh.turns.push(turn(0));
    sh.discontinuities.push(7);
    sh.wav_error = Some("full".to_string());
    sh.lanes[LANE_MIC].blocks.push(Block { start_ns: 1, end_ns: 2 });
    sh.lanes[LANE_SYS].speech_open_ns = Some(4);
    sh.lanes[LANE_MIC].level_db = Scalar32 { rank: 9 };
    sh.lanes[LANE_MIC].bins.push_fine_at(3, Bin::default());
    sh.stop_session(400 * MS);
    assert_eq!(sh.phase, Phase::Stopped);
    assert_eq!(sh.session_duration_ms(0), ms(300));
    assert_eq!(sh.session_duration_ms(u64::MAX), ms(300));
    assert_eq!(sh.turns.len(), 1);
    sh.stop_session(999 * MS);
    assert_eq!(sh.session_end_ns, 400 * MS);
    sh.new_session();
    assert_eq!((sh.phase, sh.session_start_ns, sh.session_end_ns), (Phase::Idle, 0, 0));
    assert!(sh.turns.is_empty() && sh.discontinuities.is_empty() && sh.wav_error.is_none());
    assert!(sh.lanes[LANE_MIC].blocks.is_empty() && sh.lanes[LANE_SYS].speech_open_ns.is_none());
    assert!(sh.lanes[LANE_MIC].bins.level(0).is_empty());
    assert_eq!(sh.lanes[LANE_MIC].level_db.rank, 9);
}

#[test]
fn bridge_clients_are_counted() {
    let mut sh = Shared::new(Config::default());
    sh.bridge.error = Some("old".to_string());
    sh.bridge_started(9000);
    assert!(sh.bridge.running && sh.bridge.error.is_none());
    sh.client_connected();
    sh.client_connected();
    sh.client_disconnected();
    assert_eq!((sh.bridge.clients, sh.bridge.port), (1, 9000));
    sh.bridge_stopped();
    assert_eq!((sh.bridge.running, sh.bridge.clients), (false, 0));
    sh.client_disconnected();
    assert_eq!(sh.bridge.clients, 0);
    sh.bridge.error = Some("bind".to_string());
    sh.bridge_reset(8123);
    assert_eq!((sh.bridge.port, sh.bridge.error.is_none()), (8123, true));
}

/// Only confirmed, measured turns count.
#[test]
fn statistics_count_confirmed_turns() {
    let mut sh = Shared::new(Config::default());
    sh.turns.push(turn(0));
    sh.turns.push(TurnRecord { provisional: true, ..turn(1) });
    sh.turns.push(TurnRecord { latency_ms: None, ..turn(2) });
    sh.turns.push(TurnRecord { latency_ms: Some(ms(500)), ..turn(3) });
    assert_eq!(sh.valid_latencies(), vec![ms(800), ms(500)]);
}

#[test]
fn rig_latency_needs_both_devices() {
    let mut sh = Shared::new(Config::default());
    assert_eq!(sh.devices.rig_latency_ms(), None);
    sh.devices.input = Some(device(12, true));
    assert_eq!(sh.devices.rig_latency_ms(), None);
    assert!(sh.devices.uses_bluetooth());
    sh.devices.output = Some(device(30, false));
    assert_eq!(sh.devices.rig_latency_ms(), Some(ms(42)));
    sh.devices.input = Some(device(1, false));
    assert!(!sh.devices.uses_bluetooth());
}

/// The nearest event within two seconds counts, on either side.
#[test]
fn deltas_take_the_nearest_event() {
    let events = vec![
        bridge_event(900, "user_stopped_speaking"),
        bridge_event(3120, "user_stopped_speaking"),
        bridge_event(2800, "user_stopped_speaking"),
        bridge_event(3700, "bot_started_speaking"),
    ];
    let none = SignedMillis { ns: 0 };
    let d = rtvi_deltas(&turn(0), &events, none);
    assert_eq!(d.vad_stop_delta_ms, Some(SignedMillis { ns: 120 * MS as i64 }));
    assert_eq!(d.bot_start_delta_ms, Some(SignedMillis { ns: 100 * MS as i64 }));
    // Pulled back by 180 ms, the event at 3120 is no longer the nearest: the
    // first of two equally near ones is.
    let pulled = SignedMillis { ns: -180 * MS as i64 };
    let d = rtvi_deltas(&turn(0), &events, pulled);
    assert_eq!(d.vad_stop_delta_ms, Some(SignedMillis { ns: -60 * MS as i64 }));
    assert_eq!(d.bot_start_delta_ms, Some(SignedMillis { ns: 280 * MS as i64 }));
    let d = rtvi_deltas(&TurnRecord { user_end_ns: None, ..turn(0) }, &events, none);
    assert_eq!(d.vad_stop_delta_ms, None);
    assert_eq!(interruption_register_ms(&events, 3000 * MS, none), None);
    let far = vec![bridge_event(5000, "user_started_speaking")];
    assert_eq!(
        interruption_register_ms(&far, 3000 * MS, none),
        Some(SignedMillis { ns: 2_000_000_000 })
    );
    assert_eq!(interruption_register_ms(&far, 3000 * MS - 1, none), None);
    // A correction never moves an event before the clock began.
    assert_eq!(far[0].corrected_ns(SignedMillis { ns: i64::MIN }), 0);
    assert_eq!(far[0].corrected_ns(SignedMillis { ns: 5 }), 5000 * MS + 5);
}

#[test]
fn report_is_relative_to_the_start() {
    let mut sh = Shared::new(Config::default());
    sh.start_session(1000 * MS, None);
    sh.turns.push(turn(0));
    sh.interruptions.push(InterruptionRecord {
        mic_open_ns: 4000 * MS,
        sys_stop_ns: Some(4400 * MS),
        stop_ms: Some(ms(400)),
    });
    sh.events.push(bridge_event(4100, "user_started_speaking"));
    sh.discontinuities.push(1500 * MS);
    sh.lanes[LANE_MIC].blocks.push(Block { start_ns: 2000 * MS, end_ns: 3000 * MS });
    sh.lanes[LANE_MIC].speech.push(Block { start_ns: 2100 * MS, end_ns: 2900 * MS });
    sh.lanes[LANE_SYS].blocks.push(Block { start_ns: 3800 * MS, end_ns: 5000 * MS });
    sh.devices.input = Some(device(12, false));
    sh.devices.output = Some(device(30, false));
    sh.cfg.rtvi_offset_ms = SignedMillis { ns: -50 * MS as i64 };
    sh.stop_session(6000 * MS);
    let r = session_report(&sh, 0);
    assert_eq!(r.duration_ms, ms(5000));
    assert_eq!(r.rig_latency_ms, Some(ms(42)));
    assert_eq!((r.response_latency_ms.count, r.response_latency_ms.p50), (1, ms(800)));
    let t = &r.turns[0];
    assert_eq!((t.user_start_ms, t.user_end_ms), (Some(ms(1000)), Some(ms(2000))));
    assert_eq!((t.bot_onset_ms, t.bot_group_end_ms), (ms(2800), Some(ms(4000))));
    assert_eq!((t.latency_ms, t.perceived_latency_ms), (Some(ms(800)), Some(ms(842))));
    assert_eq!(t.rtvi.vad_stop_delta_ms, None);
    let i = &r.interruptions[0];
    assert_eq!((i.mic_open_ms, i.sys_stop_ms), (ms(3000), Some(ms(3400))));
    assert_eq!((i.stop_ms, i.register_ms), (Some(ms(400)), Some(SignedMillis { ns: 50_000_000 })));
    assert_eq!((r.mic_blocks[0].start_ms, r.mic_blocks[0].end_ms), (ms(1000), ms(2000)));
    assert_eq!((r.mic_speech[0].start_ms, r.mic_speech[0].end_ms), (ms(1100), ms(1900)));
    assert_eq!((r.system_blocks[0].start_ms, r.system_blocks[0].end_ms), (ms(2800), ms(4000)));
    assert_eq!(r.event_ms, vec![ms(3050)]);
    assert_eq!(r.discontinuities_ms, vec![ms(500)]);
}

#[test]
fn status_lists_problems() {
    let mut sh = Shared::new(Config::default());
    assert!(problems(&sh).is_empty());
    sh.mic_status = Some("no device".to_string());
    sh.sys_status = SysStatus::Error("tap died".to_string());
    sh.wav_error = Some("disk full".to_string());
    sh.lanes[LANE_MIC].dropped = u64::MAX;
    sh.lanes[LANE_SYS].dropped = 1;
    assert_eq!(
        problems(&sh),
        vec![
            "mic: no device",
            "system audio: tap died",
            "wav: disk full",
            "18446744073709551616 samples dropped",
        ]
    );
}

#[test]
fn buttons_and_space_bar() {
    let none = ControlsOutput::default();
    assert_eq!(session_action(&none, true, Phase::Running), SessionAction::Stop);
    assert_eq!(session_action(&none, true, Phase::Idle), SessionAction::Start);
    assert_eq!(session_action(&none, true, Phase::Stopped), SessionAction::Start);
    assert_eq!(session_action(&none, false, Phase::Running), SessionAction::Nothing);
    let mut clicked = ControlsOutput::default();
    clicked.toggle_clicked(true);
    assert_eq!(session_action(&clicked, false, Phase::Running), SessionAction::Stop);
    let mut clicked = ControlsOutput::default();
    clicked.toggle_clicked(false);
    assert_eq!(session_action(&clicked, false, Phase::Idle), SessionAction::Start);
    assert_eq!((repaint_after_ms(Phase::Running), repaint_after_ms(Phase::Idle)), (16, 50));
    assert!(toast_visible(7, 7 + 5_000_000_000 - 1));
    assert!(!toast_visible(7, 7 + 5_000_000_000));
}

#[test]
fn capture_outcomes() {
    let mut sh = Shared::new(Config::default());
    sh.mic_outcome(Some("denied".to_string()));
    assert_eq!(sh.mic_status.as_deref(), Some("denied"));
    sh.mic_outcome(None);
    assert!(sh.mic_status.is_none());
    sh.sys_outcome(None);
    assert!(matches!(sh.sys_status, SysStatus::Capturing));
    sh.sys_outcome(Some("no tap".to_string()));
    assert!(matches!(&sh.sys_status, SysStatus::Error(e) if e == "no tap"));
    sh.sys_unselected();
    assert!(matches!(&sh.sys_status, SysStatus::Unavailable(e) if e.starts_with("select the Pulse")));
    sh.sys_unsupported();
    assert!(matches!(&sh.sys_status, SysStatus::Unavailable(e) if e.ends_with("on this OS")));
}
