//! User settings.

use vstd::prelude::*;
use crate::audio::LANE_MIC;
use crate::millis::SignedMillis;
use crate::protocol::EventCategory;
use crate::scalar::Scalar32;

verus! {

/// Which RTVI event categories are shown (timeline markers and event list).
/// Metrics are noisy and off by default; everything else is on.
#[derive(Clone, Copy, Debug, PartialEq, Eq, Structural)]
pub struct EventFilterConfig {
    pub user: bool,
    pub bot: bool,
    pub tts: bool,
    pub llm: bool,
    pub stt: bool,
    pub metrics: bool,
    pub other: bool,
}

impl Default for EventFilterConfig {
    fn default() -> (filter: EventFilterConfig)
        ensures
            forall|c: EventCategory| filter.shows(c) == (c != EventCategory::Metrics),
    {
        EventFilterConfig {
            user: true,
            bot: true,
            tts: true,
            llm: true,
            stt: true,
            metrics: false,
            other: true,
        }
    }
}

impl EventFilterConfig {
    /// The switch of a category.
    pub open spec fn shows(self, cat: EventCategory) -> bool {
        match cat {
            EventCategory::User => self.user,
            EventCategory::Bot => self.bot,
            EventCategory::Tts => self.tts,
            EventCategory::Llm => self.llm,
            EventCategory::Stt => self.stt,
            EventCategory::Metrics => self.metrics,
            EventCategory::Other => self.other,
        }
    }

    pub fn enabled(&self, cat: EventCategory) -> (on: bool)
        ensures
            on == self.shows(cat),
    {
        match cat {
            EventCategory::User => self.user,
            EventCategory::Bot => self.bot,
            EventCategory::Tts => self.tts,
            EventCategory::Llm => self.llm,
            EventCategory::Stt => self.stt,
            EventCategory::Metrics => self.metrics,
            EventCategory::Other => self.other,
        }
    }

    /// Switches one category and leaves the others alone.
    pub fn set(&mut self, cat: EventCategory, on: bool)
        ensures
            forall|c: EventCategory|
                final(self).shows(c) == if c == cat {
                    on
                } else {
                    old(self).shows(c)
                },
    {
        match cat {
            EventCategory::User => self.user = on,
            EventCategory::Bot => self.bot = on,
            EventCategory::Tts => self.tts = on,
            EventCategory::Llm => self.llm = on,
            EventCategory::Stt => self.stt = on,
            EventCategory::Metrics => self.metrics = on,
            EventCategory::Other => self.other = on,
        }
    }
}

/// Ignoring the mic while bot audio plays.
#[derive(Clone, Copy, Debug, PartialEq, Eq, Structural)]
pub struct EchoGateConfig {
    pub enabled: bool,
    /// Keep ignoring mic activity for this long after bot audio stops.
    pub tail_ms: u64,
}

impl Default for EchoGateConfig {
    fn default() -> (c: EchoGateConfig)
        ensures
            !c.enabled,
            c.tail_ms == 300,
    {
        EchoGateConfig { enabled: false, tail_ms: 300 }
    }
}

/// The WebSocket bridge.
#[derive(Clone, Copy, Debug, PartialEq, Eq, Structural)]
pub struct BridgeConfig {
    pub enabled: bool,
    pub port: u16,
}

impl Default for BridgeConfig {
    fn default() -> (c: BridgeConfig)
        ensures
            c.enabled,
            c.port == 8123,
    {
        BridgeConfig { enabled: true, port: 8123 }
    }
}

/// Rank of -45 dBFS, the default activity threshold.
pub const THRESHOLD_MINUS_45_DB: i32 = -0x4234_0000;

/// Rank of -50 dBFS, the default threshold for digital system audio.
pub const THRESHOLD_MINUS_50_DB: i32 = -0x4248_0000;

/// How one lane is cut into activity blocks.
#[derive(Clone, Copy, Debug, PartialEq, Eq, Structural)]
pub struct SegmenterConfig {
    /// Activity threshold in dBFS (RMS over 10 ms windows).
    pub threshold_db: Scalar32,
    /// Auto threshold: rolling noise floor plus margin.
    pub auto_threshold: bool,
    /// Silence needed to close a block (its end is backdated to the last
    /// crossing).
    pub hangover_ms: u64,
    /// Blocks shorter than this are discarded (clicks, pops).
    pub min_block_ms: u64,
    /// Detect activity on a 300 to 3400 Hz speech band. Detection only: the
    /// captured, displayed and recorded audio is untouched.
    pub speech_band: bool,
}

impl SegmenterConfig {
    /// The settings a lane starts with, at the given threshold.
    pub open spec fn standard(threshold: i32) -> SegmenterConfig {
        SegmenterConfig {
            threshold_db: Scalar32 { rank: threshold },
            auto_threshold: false,
            hangover_ms: 250,
            min_block_ms: 100,
            speech_band: true,
        }
    }
}

impl Default for SegmenterConfig {
    fn default() -> (c: SegmenterConfig)
        ensures
            c == SegmenterConfig::standard(THRESHOLD_MINUS_45_DB),
    {
        SegmenterConfig {
            threshold_db: Scalar32 { rank: THRESHOLD_MINUS_45_DB },
            auto_threshold: false,
            hangover_ms: 250,
            min_block_ms: 100,
            speech_band: true,
        }
    }
}

/// All settings.
#[derive(Clone, Debug)]
pub struct Config {
    /// Mic input device name (`None` is the system default).
    pub input_device: Option<String>,
    /// Linux only: the monitor source used as system audio.
    pub linux_system_device: Option<String>,
    pub mic_segmenter: SegmenterConfig,
    pub sys_segmenter: SegmenterConfig,
    /// Bot blocks separated by less than this form one response.
    pub merge_gap_ms: u64,
    pub echo_gate: EchoGateConfig,
    pub bridge: BridgeConfig,
    /// Tint VAD-classified speech on the timeline. Purely visual.
    pub vad_tint: bool,
    /// Per-category visibility of RTVI events.
    pub event_filter: EventFilterConfig,
    /// Manual correction added to every bridge event timestamp before display
    /// and analysis. Zero keeps raw arrival times.
    pub rtvi_offset_ms: SignedMillis,
    /// Record per-lane WAV files during sessions.
    pub record_wav: bool,
    /// Where session folders are created.
    pub export_dir: Option<String>,
}

impl Default for Config {
    fn default() -> (c: Config)
        ensures
            c.input_device is None,
            c.linux_system_device is None,
            c.mic_segmenter == SegmenterConfig::standard(THRESHOLD_MINUS_45_DB),
            c.sys_segmenter == SegmenterConfig::standard(THRESHOLD_MINUS_50_DB),
            c.merge_gap_ms == 1000,
            !c.echo_gate.enabled && c.echo_gate.tail_ms == 300,
            c.bridge.enabled && c.bridge.port == 8123,
            c.vad_tint,
            forall|k: EventCategory| c.event_filter.shows(k) == (k != EventCategory::Metrics),
            c.rtvi_offset_ms.ns == 0,
            !c.record_wav,
            c.export_dir is None,
    {
        Config {
            input_device: None,
            linux_system_device: None,
            mic_segmenter: SegmenterConfig::default(),
            // System audio is digital: its noise floor is essentially silence,
            // so a lower threshold catches soft onsets.
            sys_segmenter: SegmenterConfig {
                threshold_db: Scalar32 { rank: THRESHOLD_MINUS_50_DB },
                ..SegmenterConfig::default()
            },
            merge_gap_ms: 1000,
            echo_gate: EchoGateConfig::default(),
            bridge: BridgeConfig::default(),
            vad_tint: true,
            event_filter: EventFilterConfig::default(),
            rtvi_offset_ms: SignedMillis { ns: 0 },
            record_wav: false,
            export_dir: None,
        }
    }
}

impl Config {
    /// The segmenter settings of a lane.
    pub open spec fn segmenter_of(self, lane: usize) -> SegmenterConfig {
        if lane == LANE_MIC {
            self.mic_segmenter
        } else {
            self.sys_segmenter
        }
    }

    /// Switches the automatic threshold of both lanes.
    pub fn set_auto_threshold(&mut self, on: bool)
        ensures
            *final(self) == (Config {
                mic_segmenter: SegmenterConfig { auto_threshold: on, ..old(self).mic_segmenter },
                sys_segmenter: SegmenterConfig { auto_threshold: on, ..old(self).sys_segmenter },
                ..*old(self)
            }),
    {
        self.mic_segmenter.auto_threshold = on;
        self.sys_segmenter.auto_threshold = on;
    }

    /// Switches the speech-band filter of both lanes.
    pub fn set_speech_band(&mut self, on: bool)
        ensures
            *final(self) == (Config {
                mic_segmenter: SegmenterConfig { speech_band: on, ..old(self).mic_segmenter },
                sys_segmenter: SegmenterConfig { speech_band: on, ..old(self).sys_segmenter },
                ..*old(self)
            }),
    {
        self.mic_segmenter.speech_band = on;
        self.sys_segmenter.speech_band = on;
    }

    /// Keeps the system lane's timing in lockstep with the mic lane's;
    /// thresholds stay per lane.
    pub fn lock_timing(&mut self)
        ensures
            *final(self) == (Config {
                sys_segmenter: SegmenterConfig {
                    hangover_ms: old(self).mic_segmenter.hangover_ms,
                    min_block_ms: old(self).mic_segmenter.min_block_ms,
                    ..old(self).sys_segmenter
                },
                ..*old(self)
            }),
    {
        self.sys_segmenter.hangover_ms = self.mic_segmenter.hangover_ms;
        self.sys_segmenter.min_block_ms = self.mic_segmenter.min_block_ms;
    }
}

/// Per-lane segmenter settings (mic or system).
pub fn seg_cfg(cfg: &Config, lane: usize) -> (c: &SegmenterConfig)
    ensures
        *c == cfg.segmenter_of(lane),
{
    if lane == LANE_MIC {
        &cfg.mic_segmenter
    } else {
        &cfg.sys_segmenter
    }
}

/// A lane starts with a fixed threshold, a quarter of a second of hangover, a
/// tenth of a second for the shortest block, and the speech band on.
pub proof fn law_standard_lane_settings(threshold: i32)
    ensures
        ({
            let c = SegmenterConfig::standard(threshold);
            &&& c.threshold_db.rank == threshold
            &&& !c.auto_threshold
            &&& c.hangover_ms == 250
            &&& c.min_block_ms == 100
            &&& c.speech_band
        }),
        THRESHOLD_MINUS_45_DB == -0x4234_0000,
        THRESHOLD_MINUS_50_DB == -0x4248_0000,
{
}

/// Each lane goes by its own settings.
pub proof fn law_lane_settings(cfg: Config)
    ensures
        cfg.segmenter_of(0) == cfg.mic_segmenter,
        cfg.segmenter_of(1) == cfg.sys_segmenter,
{
}

/// Each category has its own switch.
pub proof fn law_category_switches(filter: EventFilterConfig)
    ensures
        filter.shows(EventCategory::User) == filter.user,
        filter.shows(EventCategory::Bot) == filter.bot,
        filter.shows(EventCategory::Tts) == filter.tts,
        filter.shows(EventCategory::Llm) == filter.llm,
        filter.shows(EventCategory::Stt) == filter.stt,
        filter.shows(EventCategory::Metrics) == filter.metrics,
        filter.shows(EventCategory::Other) == filter.other,
{
}

} // verus!
