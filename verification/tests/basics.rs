use pipecat_audio_metrics::audio::{
    choose_device, four_characters, next_gen, selection, transport_name, trim, DeviceChoice,
    DeviceSelection, Generations,
};
use pipecat_audio_metrics::clock;
use pipecat_audio_metrics::clock::MachTimebaseInfo;
use pipecat_audio_metrics::config::{seg_cfg, Config, SegmenterConfig};
use pipecat_audio_metrics::millis::Millis;
use pipecat_audio_metrics::scalar::{Scalar32, Scalar64};
use pipecat_audio_metrics::text::{contains, decimal, starts_with};

fn key(x: f32) -> Scalar32 {
    Scalar32::from_bits(x.to_bits()).unwrap()
}

/// Ranks are ordered as the numbers are, and nothing is lost.
#[test]
fn scalars_keep_order_and_value() {
    let numbers = [
        f32::NEG_INFINITY,
        -1e30,
        -45.0,
        -1e-40,
        0.0,
        1e-45,
        0.35,
        0.6,
        1.0,
        3.4e38,
        f32::INFINITY,
    ];
    for pair in numbers.windows(2) {
        assert!(key(pair[0]).rank < key(pair[1]).rank, "{pair:?}");
    }
    for n in numbers {
        assert_eq!(f32::from_bits(key(n).to_bits()), n);
    }
    assert_eq!(key(-0.0), key(0.0));
    assert_eq!(Scalar32::zero(), key(0.0));
    assert!(Scalar32::from_bits(f32::NAN.to_bits()).is_none());
    assert!(Scalar64::from_bits(f64::NAN.to_bits()).is_none());
    let a = Scalar64::from_bits((-1.5f64).to_bits()).unwrap();
    let b = Scalar64::from_bits((1e300f64).to_bits()).unwrap();
    assert!(a.rank < b.rank);
    assert_eq!(f64::from_bits(a.to_bits()), -1.5);
}

#[test]
fn spans_of_time() {
    assert_eq!(Millis::between(5, 12).ns, 7);
    assert_eq!(Millis::between(12, 5).ns, 0);
    assert!(Millis { ns: 2_000_000 }.at_least(2));
    assert!(!Millis { ns: 1_999_999 }.at_least(2));
    assert!(!Millis { ns: u64::MAX }.at_least(u64::MAX));
    assert_eq!(Millis { ns: 2 }.plus(Millis { ns: 3 }).ns, 5);
    assert_eq!(Millis { ns: u64::MAX }.plus(Millis { ns: 3 }).ns, u64::MAX);
}

#[test]
fn clock_counts_from_launch() {
    let c = clock::init(1_000);
    assert_eq!(clock::now_ns(&c, 1_500), 500);
    assert_eq!(clock::now_ns(&c, 900), 0);
    let ticks = MachTimebaseInfo { numer: 125, denom: 3 };
    assert_eq!(clock::ticks_to_ns(30, &ticks), 1_250);
    assert_eq!(clock::host_time_to_ns(&c, 30, &ticks), 250);
    let unit = MachTimebaseInfo { numer: 1, denom: 1 };
    assert_eq!(clock::host_time_to_ns(&c, u64::MAX, &unit), u64::MAX - 1_000);
    let wide = MachTimebaseInfo { numer: 2, denom: 1 };
    assert_eq!(clock::ticks_to_ns(1 << 63, &wide), 0);
    assert_eq!(clock::timespec_to_ns(3, 7), 3_000_000_007);
}

#[test]
fn streams_are_numbered() {
    let mut g = Generations::default();
    assert_eq!(next_gen(&mut g), 1);
    assert_eq!(next_gen(&mut g), 2);
    let mut last = Generations { next: u64::MAX };
    assert_eq!(next_gen(&mut last), u64::MAX);
    assert_eq!(next_gen(&mut last), 0);
}

#[test]
fn transports_are_named() {
    for (code, name) in [
        (0x626C_746E, "Built-in"),
        (0x7573_6220, "USB"),
        (0x626C_7565, "Bluetooth"),
        (0x626C_6561, "Bluetooth LE"),
        (0x6864_6D69, "HDMI"),
        (0x6470_7274, "DisplayPort"),
        (0x6169_7270, "AirPlay"),
        (0x7669_7274, "Virtual"),
        (0x6772_7570, "Aggregate"),
        (0x7468_756E, "Thunderbolt"),
        (0x3133_3934, "FireWire"),
        (0x7063_6920, "PCI"),
        (0x6561_7662, "AVB"),
        (0, "Unknown"),
    ] {
        assert_eq!(transport_name(code), name);
    }
    assert_eq!(transport_name(u32::from_be_bytes(*b"ab  ")), "ab");
    assert_eq!(transport_name(u32::from_be_bytes(*b" x\t\n")), "x");
    assert_eq!(four_characters(u32::from_be_bytes(*b"    ")), "");
    assert_eq!(four_characters(0x41FF_4243), "A\u{fffd}BC");
    assert_eq!(trim("\u{a0}\u{2003}a b\u{85}"), "a b");
}

#[test]
fn settings_start_out_sensible() {
    let cfg = Config::default();
    assert_eq!(cfg.mic_segmenter.threshold_db, key(-45.0));
    assert_eq!(cfg.sys_segmenter.threshold_db, key(-50.0));
    assert_eq!((cfg.mic_segmenter.hangover_ms, cfg.mic_segmenter.min_block_ms), (250, 100));
    assert_eq!((cfg.merge_gap_ms, cfg.echo_gate.tail_ms, cfg.bridge.port), (1000, 300, 8123));
    assert!(cfg.bridge.enabled && cfg.vad_tint && cfg.mic_segmenter.speech_band);
    assert!(!cfg.echo_gate.enabled && !cfg.record_wav && !cfg.mic_segmenter.auto_threshold);
    assert_eq!(cfg.rtvi_offset_ms.ns, 0);
    assert_eq!(*seg_cfg(&cfg, 0), cfg.mic_segmenter);
    assert_eq!(*seg_cfg(&cfg, 1), cfg.sys_segmenter);
}

#[test]
fn settings_move_in_lockstep() {
    let mut cfg = Config::default();
    cfg.set_auto_threshold(true);
    cfg.set_speech_band(false);
    cfg.mic_segmenter.hangover_ms = 400;
    cfg.mic_segmenter.min_block_ms = 50;
    cfg.lock_timing();
    assert_eq!(
        cfg.sys_segmenter,
        SegmenterConfig {
            threshold_db: key(-50.0),
            auto_threshold: true,
            hangover_ms: 400,
            min_block_ms: 50,
            speech_band: false,
        }
    );
    assert_eq!(cfg.mic_segmenter.threshold_db, key(-45.0));
    cfg.input_device = Some("USB mic".to_string());
    let sel = selection(&cfg);
    assert_eq!(sel.input_device.as_deref(), Some("USB mic"));
    assert_eq!(sel.linux_system_device, DeviceSelection::default().linux_system_device);
}

#[test]
fn texts() {
    assert!(contains("abcabd", "abd") && !contains("abcab", "abd") && contains("", ""));
    assert!(starts_with("user_x", "user_") && !starts_with("use", "user_"));
    assert_eq!(decimal(0), "0");
    assert_eq!(decimal(u128::MAX), "340282366920938463463374607431768211455");
}

/// The first device of the name wanted, else the default, else an error.
#[test]
fn devices_are_chosen() {
    let names = vec![None, Some("a".to_string()), Some("b".to_string()), Some("b".to_string())];
    assert_eq!(choose_device(&names, Some("b"), false), Ok(DeviceChoice::Listed(2)));
    assert_eq!(choose_device(&names, Some("c"), true), Ok(DeviceChoice::Standard));
    assert_eq!(
        choose_device(&names, Some("c"), false),
        Err("input device 'c' not found and no default available".to_string())
    );
    assert_eq!(choose_device(&names, None, true), Ok(DeviceChoice::Standard));
    assert_eq!(choose_device(&names, None, false), Err("no default input device".to_string()));
}
