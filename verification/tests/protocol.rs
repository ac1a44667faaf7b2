use pipecat_audio_metrics::config::EventFilterConfig;
use pipecat_audio_metrics::protocol::{
    categorize, interpret, normalize_name, EventCategory, InboundMsg, Parsed,
};

/// Decodes a message as the bridge does.
fn parse(text: &str) -> Parsed {
    let Ok(v) = serde_json::from_str::<serde_json::Value>(text) else {
        return Parsed::Ignored;
    };
    let Some(msg_type) = v["type"].as_str() else {
        return Parsed::Ignored;
    };
    interpret(InboundMsg {
        msg_type: msg_type.to_string(),
        name: v["name"].as_str().map(str::to_string),
        source: v["source"].as_str().map(str::to_string),
        meta: v.get("meta").cloned(),
    })
}

#[test]
fn normalizes_names() {
    assert_eq!(normalize_name("user-started-speaking"), "user_started_speaking");
    assert_eq!(normalize_name("UserStoppedSpeakingFrame"), "user_stopped_speaking_frame");
    assert_eq!(normalize_name("bot_started_speaking"), "bot_started_speaking");
    assert_eq!(normalize_name("botTtsStarted"), "bot_tts_started");
}

#[test]
fn parses_event() {
    let p = parse(r#"{"v":1,"type":"event","name":"user-stopped-speaking","meta":{"x":1}}"#);
    match p {
        Parsed::Event { name, .. } => assert_eq!(name, "user_stopped_speaking"),
        _ => panic!("expected event"),
    }
}

#[test]
fn metrics_win_over_service_substrings() {
    assert_eq!(categorize("metrics"), EventCategory::Metrics);
    assert_eq!(categorize("llm_metrics"), EventCategory::Metrics);
    assert_eq!(categorize("tts_metrics"), EventCategory::Metrics);
    assert_eq!(categorize("bot_llm_started"), EventCategory::Llm);
    assert_eq!(categorize("user_stopped_speaking"), EventCategory::User);
}

#[test]
fn rtvi_raw_compat() {
    let p = parse(r#"{"type":"bot-started-speaking"}"#);
    match p {
        Parsed::Event { name, source, .. } => {
            assert_eq!(name, "bot_started_speaking");
            assert_eq!(source, "rtvi-raw");
        }
        _ => panic!("expected event"),
    }
}

/// Runs of separators become one underscore, capitals after capitals do not
/// split, digits count as small letters, and letters beyond ASCII are lowered.
#[test]
fn normalizes_odd_names() {
    assert_eq!(normalize_name(""), "");
    assert_eq!(normalize_name("a - .b"), "a_b");
    assert_eq!(normalize_name("LLMText"), "llmtext");
    assert_eq!(normalize_name("v2Ready"), "v2_ready");
    assert_eq!(normalize_name("-x"), "_x");
    assert_eq!(normalize_name("caf\u{e9}\u{c9}t\u{e9}"), "caf\u{e9}_\u{e9}t\u{e9}");
    assert_eq!(normalize_name("\u{130}"), "i\u{307}");
    assert_eq!(normalize_name("\u{2460}A"), "\u{2460}_a");
}

/// Normalizing twice changes nothing more.
#[test]
fn normalizing_is_idempotent() {
    for name in ["botTtsStarted", "Weird - NAME.v2", "already_snake"] {
        let once = normalize_name(name);
        assert_eq!(normalize_name(&once), once);
        assert!(!once.contains(|c: char| c.is_ascii_uppercase() || "- .".contains(c)));
        assert_eq!(
            once.replace('_', ""),
            name.to_ascii_lowercase().replace(['-', ' ', '.', '_'], "")
        );
    }
}

#[test]
fn other_messages() {
    assert!(matches!(parse(r#"{"type":"ping"}"#), Parsed::Ping));
    assert!(matches!(parse(r#"{"type":"hello"}"#), Parsed::Hello));
    assert!(matches!(parse(r#"{"type":"event"}"#), Parsed::Ignored));
    assert!(matches!(parse(r#"{"type":""}"#), Parsed::Ignored));
    assert!(matches!(parse("not json"), Parsed::Ignored));
    match parse(r#"{"type":"event","name":"x","source":"pipecat"}"#) {
        Parsed::Event { name, source, meta } => {
            assert_eq!((name.as_str(), source.as_str()), ("x", "pipecat"));
            assert!(meta.is_none());
        }
        _ => panic!("expected event"),
    }
    match parse(r#"{"type":"event","name":"x","meta":{"k":2}}"#) {
        Parsed::Event { source, meta, .. } => {
            assert_eq!(source, "bridge");
            assert_eq!(meta.unwrap()["k"], 2);
        }
        _ => panic!("expected event"),
    }
}

#[test]
fn categories() {
    for (name, expected) in [
        ("tts_started", EventCategory::Tts),
        ("bot_tts_text", EventCategory::Tts),
        ("stt_muted", EventCategory::Stt),
        ("bot_transcript", EventCategory::Stt),
        ("bot_ready", EventCategory::Bot),
        ("robot_ready", EventCategory::Other),
        ("error", EventCategory::Other),
        ("user_metrics", EventCategory::Metrics),
    ] {
        assert_eq!(categorize(name), expected, "{name}");
    }
    let labels: Vec<&str> = EventCategory::ALL.iter().map(|c| c.label()).collect();
    assert_eq!(
        labels,
        vec!["User", "Bot", "TTS", "LLM", "STT / transcripts", "Metrics", "Other"]
    );
}

#[test]
fn filter_switches_one_category() {
    let mut filter = EventFilterConfig::default();
    for c in EventCategory::ALL {
        assert_eq!(filter.enabled(c), c != EventCategory::Metrics);
    }
    filter.set(EventCategory::Metrics, true);
    filter.set(EventCategory::Bot, false);
    for c in EventCategory::ALL {
        assert_eq!(filter.enabled(c), c != EventCategory::Bot);
    }
}
