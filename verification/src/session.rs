//! Shared state between the audio and analysis threads, the bridge server and
//! the UI.

use vstd::prelude::*;
use vstd::string::StringExecFns;
use crate::analysis::bins::{Bin, LaneBins, NUM_LEVELS};
use crate::analysis::turns::{InterruptionRecord, TurnRecord};
use crate::audio::DeviceInfo;
use crate::config::Config;
use crate::millis::{span_ns, Millis, SignedMillis};
use crate::protocol::Parsed;
use crate::scalar::Scalar32;

verus! {

/// A time moved by an offset, kept within the clock's range.
pub open spec fn shifted(t_ns: u64, offset: SignedMillis) -> u64 {
    if t_ns + offset.ns < 0 {
        0
    } else if t_ns + offset.ns > u64::MAX {
        u64::MAX
    } else {
        (t_ns + offset.ns) as u64
    }
}

/// An event received over the bridge, stamped on arrival.
pub struct BridgeEvent {
    pub t_ns: u64,
    pub name: String,
    pub source: String,
    pub meta: Option<serde_json::Value>,
}

impl BridgeEvent {
    /// When the event counts as having happened, the manual correction for
    /// transport delay applied.
    pub fn corrected_ns(&self, offset: SignedMillis) -> (t_ns: u64)
        ensures
            t_ns == shifted(self.t_ns, offset),
    {
        let moved: i128 = self.t_ns as i128 + offset.ns as i128;
        if moved < 0 {
            0
        } else if moved > u64::MAX as i128 {
            u64::MAX
        } else {
            moved as u64
        }
    }
}

/// Where a session stands.
#[derive(Clone, Copy, Debug, PartialEq, Eq, Structural)]
pub enum Phase {
    Idle,
    Running,
    Stopped,
}

/// A stretch of activity.
#[derive(Clone, Copy, Debug, PartialEq, Eq, Structural)]
pub struct Block {
    pub start_ns: u64,
    pub end_ns: u64,
}

/// The bridge server as shown to the user.
#[derive(Clone, Debug)]
pub struct BridgeStatus {
    pub running: bool,
    pub port: u16,
    pub clients: usize,
    /// Name and arrival time of the last event.
    pub last_event: Option<(String, u64)>,
    pub error: Option<String>,
}

impl Default for BridgeStatus {
    fn default() -> (s: BridgeStatus)
        ensures
            s == (BridgeStatus {
                running: false,
                port: 0,
                clients: 0,
                last_event: None,
                error: None,
            }),
    {
        BridgeStatus { running: false, port: 0, clients: 0, last_event: None, error: None }
    }
}

/// Whether system audio is captured.
#[derive(Clone, Debug)]
pub enum SysStatus {
    Capturing,
    Unavailable(String),
    Error(String),
}

impl Default for SysStatus {
    fn default() -> (s: SysStatus)
        ensures
            s matches SysStatus::Unavailable(why) && why@ == "not started"@,
    {
        SysStatus::Unavailable(String::from_str("not started"))
    }
}

/// One lane as shown and exported.
pub struct LaneState {
    pub bins: LaneBins,
    pub blocks: Vec<Block>,
    pub open_start_ns: Option<u64>,
    /// Classified speech intervals (mic lane only). For display: block edges,
    /// turns and all metrics come from `blocks` alone.
    pub speech: Vec<Block>,
    pub speech_open_ns: Option<u64>,
    pub level_db: Scalar32,
    pub effective_threshold_db: Scalar32,
    pub dropped: u64,
    /// Time of the most recent sample processed (the lane's "now").
    pub last_sample_ns: u64,
}

impl LaneState {
    /// The lane holds nothing of a session.
    pub open spec fn is_clear(self) -> bool {
        &&& self.bins@ == Seq::new(NUM_LEVELS as nat, |k: int| Seq::<Bin>::empty())
        &&& self.blocks@ == Seq::<Block>::empty()
        &&& self.open_start_ns is None
        &&& self.speech@ == Seq::<Block>::empty()
        &&& self.speech_open_ns is None
    }

    /// Forgets the session; the meters keep what they show.
    pub fn reset_session(&mut self)
        ensures
            final(self).is_clear(),
            final(self).level_db == old(self).level_db,
            final(self).effective_threshold_db == old(self).effective_threshold_db,
            final(self).dropped == old(self).dropped,
            final(self).last_sample_ns == old(self).last_sample_ns,
    {
        self.bins.clear();
        self.blocks.clear();
        self.open_start_ns = None;
        self.speech.clear();
        self.speech_open_ns = None;
    }
}

impl Default for LaneState {
    fn default() -> (lane: LaneState)
        ensures
            lane.is_clear(),
            lane.level_db.rank == 0,
            lane.effective_threshold_db.rank == 0,
            lane.dropped == 0,
            lane.last_sample_ns == 0,
    {
        LaneState {
            bins: LaneBins::default(),
            blocks: Vec::new(),
            open_start_ns: None,
            speech: Vec::new(),
            speech_open_ns: None,
            level_db: Scalar32::zero(),
            effective_threshold_db: Scalar32::zero(),
            dropped: 0,
            last_sample_ns: 0,
        }
    }
}

/// The audio devices in use, as far as they are known.
#[derive(Clone, Debug)]
pub struct DeviceSnapshot {
    pub input: Option<DeviceInfo>,
    pub output: Option<DeviceInfo>,
}

impl Default for DeviceSnapshot {
    fn default() -> (d: DeviceSnapshot)
        ensures
            d.input is None,
            d.output is None,
    {
        DeviceSnapshot { input: None, output: None }
    }
}

impl DeviceSnapshot {
    /// The rig latency, where both devices report theirs.
    pub open spec fn rig_latency(self) -> Option<Millis> {
        match (self.input, self.output) {
            (Some(i), Some(o)) => Some(i.total_latency_ms.sum(o.total_latency_ms)),
            _ => None,
        }
    }

    /// Sum of reported input and output latency: the amount by which the raw
    /// measured gap understates what the human perceives.
    pub fn rig_latency_ms(&self) -> (rig: Option<Millis>)
        ensures
            rig == self.rig_latency(),
    {
        match (&self.input, &self.output) {
            (Some(i), Some(o)) => Some(i.total_latency_ms.plus(o.total_latency_ms)),
            _ => None,
        }
    }

    /// Whether either device is connected by Bluetooth, whose reported latency
    /// is only approximate.
    pub fn uses_bluetooth(&self) -> (b: bool)
        ensures
            b == ((self.input matches Some(i) && i.is_bluetooth) || (self.output matches Some(o)
                && o.is_bluetooth)),
    {
        let input = match &self.input {
            Some(i) => i.is_bluetooth,
            None => false,
        };
        let output = match &self.output {
            Some(o) => o.is_bluetooth,
            None => false,
        };
        input || output
    }
}

/// Everything that the threads share.
pub struct Shared {
    pub phase: Phase,
    pub session_start_ns: u64,
    pub session_end_ns: u64,
    pub lanes: [LaneState; 2],
    pub turns: Vec<TurnRecord>,
    /// Barge-ins: mic audio over bot audio, and when the bot actually stopped.
    pub interruptions: Vec<InterruptionRecord>,
    pub events: Vec<BridgeEvent>,
    pub discontinuities: Vec<u64>,
    pub bridge: BridgeStatus,
    pub cfg: Config,
    pub sys_status: SysStatus,
    /// Error message if the mic failed.
    pub mic_status: Option<String>,
    pub devices: DeviceSnapshot,
    pub session_dir: Option<String>,
    pub wav_error: Option<String>,
    /// Input devices found.
    pub available_devices: Vec<String>,
    /// True while streams are being started, possibly blocked on a permission
    /// prompt.
    pub audio_busy: bool,
    /// Set if the speech classifier failed (the tint falls back to plain).
    pub vad_error: Option<String>,
}

/// The latencies of the turns that are measured and confirmed, in order.
pub open spec fn confirmed_latencies(turns: Seq<TurnRecord>) -> Seq<Millis>
    decreases turns.len(),
{
    if turns.len() == 0 {
        Seq::empty()
    } else {
        let before = confirmed_latencies(turns.drop_last());
        let last = turns.last();
        match last.latency_ms {
            Some(l) if !last.provisional => before.push(l),
            _ => before,
        }
    }
}

/// What the bridge answers to a message.
#[derive(Clone, Copy, Debug, PartialEq, Eq, Structural)]
pub enum Reply {
    /// Nothing.
    Silent,
    /// The receive time of a ping.
    Pong { recv_ns: u64 },
    /// The greeting.
    Hello,
}

impl Shared {
    /// No data of any session is left.
    pub open spec fn is_clear(self) -> bool {
        &&& self.session_start_ns == 0
        &&& self.session_end_ns == 0
        &&& self.has_no_records()
    }

    /// Nothing has been recorded.
    pub open spec fn has_no_records(self) -> bool {
        &&& self.turns@ == Seq::<TurnRecord>::empty()
        &&& self.interruptions@ == Seq::<InterruptionRecord>::empty()
        &&& self.events@ == Seq::<BridgeEvent>::empty()
        &&& self.discontinuities@ == Seq::<u64>::empty()
        &&& self.wav_error is None
        &&& self.lanes[0].is_clear()
        &&& self.lanes[1].is_clear()
    }

    pub fn new(cfg: Config) -> (sh: Shared)
        ensures
            sh.is_clear(),
            sh.phase == Phase::Idle,
            sh.cfg == cfg,
            sh.sys_status matches SysStatus::Unavailable(why) && why@ == "not started"@,
            sh.mic_status is None,
            sh.devices.input is None && sh.devices.output is None,
            sh.session_dir is None,
            sh.available_devices@ == Seq::<String>::empty(),
            !sh.audio_busy,
            sh.vad_error is None,
            !sh.bridge.running && sh.bridge.port == 0 && sh.bridge.clients == 0,
            sh.bridge.last_event is None && sh.bridge.error is None,
            forall|k: int|
                0 <= k < 2 ==> (#[trigger] sh.lanes[k]).level_db.rank == 0
                    && sh.lanes[k].effective_threshold_db.rank == 0 && sh.lanes[k].dropped == 0
                    && sh.lanes[k].last_sample_ns == 0,
    {
        Shared {
            phase: Phase::Idle,
            session_start_ns: 0,
            session_end_ns: 0,
            lanes: [LaneState::default(), LaneState::default()],
            turns: Vec::new(),
            interruptions: Vec::new(),
            events: Vec::new(),
            discontinuities: Vec::new(),
            bridge: BridgeStatus::default(),
            cfg,
            sys_status: SysStatus::default(),
            mic_status: None,
            devices: DeviceSnapshot::default(),
            session_dir: None,
            wav_error: None,
            available_devices: Vec::new(),
            audio_busy: false,
            vad_error: None,
        }
    }

    /// `self` differs from `before` at most in the data of the session.
    pub open spec fn same_surroundings(self, before: Shared) -> bool {
        &&& self.bridge == before.bridge
        &&& self.cfg == before.cfg
        &&& self.sys_status == before.sys_status
        &&& self.mic_status == before.mic_status
        &&& self.devices == before.devices
        &&& self.available_devices == before.available_devices
        &&& self.audio_busy == before.audio_busy
        &&& self.vad_error == before.vad_error
        &&& forall|k: int|
            0 <= k < 2 ==> (#[trigger] self.lanes[k]).level_db == before.lanes[k].level_db
                && self.lanes[k].effective_threshold_db == before.lanes[k].effective_threshold_db
                && self.lanes[k].dropped == before.lanes[k].dropped && self.lanes[k].last_sample_ns
                == before.lanes[k].last_sample_ns
    }

    /// Wipes all data of the previous session (timeline, turns, events).
    pub fn clear_session_data(&mut self)
        ensures
            final(self).is_clear(),
            final(self).same_surroundings(*old(self)),
            final(self).phase == old(self).phase,
            final(self).session_dir == old(self).session_dir,
    {
        self.session_start_ns = 0;
        self.session_end_ns = 0;
        self.turns.clear();
        self.interruptions.clear();
        self.events.clear();
        self.discontinuities.clear();
        self.wav_error = None;
        self.lanes[0].reset_session();
        self.lanes[1].reset_session();
    }

    /// Begins a session, with nothing of an earlier one left.
    pub fn start_session(&mut self, now_ns: u64, dir: Option<String>)
        ensures
            final(self).phase == Phase::Running,
            final(self).session_start_ns == now_ns,
            final(self).session_end_ns == 0,
            final(self).session_dir == dir,
            final(self).has_no_records(),
            final(self).same_surroundings(*old(self)),
    {
        self.clear_session_data();
        self.session_start_ns = now_ns;
        self.session_dir = dir;
        self.phase = Phase::Running;
    }

    /// Ends the session that is running, if one is.
    pub fn stop_session(&mut self, now_ns: u64)
        ensures
            *final(self) == if old(self).phase == Phase::Running {
                Shared { session_end_ns: now_ns, phase: Phase::Stopped, ..*old(self) }
            } else {
                *old(self)
            },
    {
        if self.phase == Phase::Running {
            self.session_end_ns = now_ns;
            self.phase = Phase::Stopped;
        }
    }

    /// Puts the results away and makes ready for another session.
    pub fn new_session(&mut self)
        ensures
            final(self).phase == Phase::Idle,
            final(self).session_dir is None,
            final(self).is_clear(),
            final(self).same_surroundings(*old(self)),
    {
        self.clear_session_data();
        self.session_dir = None;
        self.phase = Phase::Idle;
    }

    /// Time of a moment since the session began.
    pub fn rel_ms(&self, t_ns: u64) -> (ms: Millis)
        ensures
            ms.ns == span_ns(self.session_start_ns, t_ns),
    {
        Millis::between(self.session_start_ns, t_ns)
    }

    /// How long the session has lasted, or lasted.
    pub open spec fn duration_ns(self, now_ns: u64) -> u64 {
        span_ns(
            self.session_start_ns,
            if self.phase == Phase::Running {
                now_ns
            } else {
                self.session_end_ns
            },
        )
    }

    pub fn session_duration_ms(&self, now_ns: u64) -> (ms: Millis)
        ensures
            ms.ns == self.duration_ns(now_ns),
    {
        let end: u64 = match self.phase {
            Phase::Running => now_ns,
            _ => self.session_end_ns,
        };
        Millis::between(self.session_start_ns, end)
    }

    /// Latencies of valid, confirmed turns (for statistics).
    pub fn valid_latencies(&self) -> (latencies: Vec<Millis>)
        ensures
            latencies@ == confirmed_latencies(self.turns@),
    {
        let mut out: Vec<Millis> = Vec::new();
        let mut i: usize = 0;
        while i < self.turns.len()
            invariant
                i <= self.turns@.len(),
                out@ == confirmed_latencies(self.turns@.take(i as int)),
            decreases self.turns@.len() - i,
        {
            let t = self.turns[i];
            assert(self.turns@.take(i + 1).drop_last() =~= self.turns@.take(i as int));
            if !t.provisional {
                if let Some(l) = t.latency_ms {
                    out.push(l);
                }
            }
            i = i + 1;
        }
        assert(self.turns@.take(self.turns@.len() as int) =~= self.turns@);
        out
    }

    /// The bridge is about to be set up anew on the given port.
    pub fn bridge_reset(&mut self, port: u16)
        ensures
            *final(self) == (Shared {
                bridge: BridgeStatus {
                    running: false,
                    error: None,
                    clients: 0,
                    port,
                    ..old(self).bridge
                },
                ..*old(self)
            }),
    {
        self.bridge.running = false;
        self.bridge.error = None;
        self.bridge.clients = 0;
        self.bridge.port = port;
    }

    /// The bridge listens on the given port.
    pub fn bridge_started(&mut self, port: u16)
        ensures
            *final(self) == (Shared {
                bridge: BridgeStatus {
                    running: true,
                    error: None,
                    clients: 0,
                    port,
                    ..old(self).bridge
                },
                ..*old(self)
            }),
    {
        self.bridge.running = true;
        self.bridge.port = port;
        self.bridge.clients = 0;
        self.bridge.error = None;
    }

    /// The bridge no longer listens.
    pub fn bridge_stopped(&mut self)
        ensures
            *final(self) == (Shared {
                bridge: BridgeStatus { running: false, clients: 0, ..old(self).bridge },
                ..*old(self)
            }),
    {
        self.bridge.running = false;
        self.bridge.clients = 0;
    }

    pub fn client_connected(&mut self)
        requires
            old(self).bridge.clients < usize::MAX,
        ensures
            *final(self) == (Shared {
                bridge: BridgeStatus {
                    clients: (old(self).bridge.clients + 1) as usize,
                    ..old(self).bridge
                },
                ..*old(self)
            }),
    {
        self.bridge.clients = self.bridge.clients + 1;
    }

    pub fn client_disconnected(&mut self)
        ensures
            *final(self) == (Shared {
                bridge: BridgeStatus {
                    clients: if old(self).bridge.clients == 0 {
                        0
                    } else {
                        (old(self).bridge.clients - 1) as usize
                    },
                    ..old(self).bridge
                },
                ..*old(self)
            }),
    {
        self.bridge.clients = self.bridge.clients.saturating_sub(1);
    }

    /// The mic was started, or could not be.
    pub fn mic_outcome(&mut self, error: Option<String>)
        ensures
            *final(self) == (Shared { mic_status: error, ..*old(self) }),
    {
        self.mic_status = error;
    }

    /// System audio capture was started, or could not be.
    pub fn sys_outcome(&mut self, error: Option<String>)
        ensures
            *final(self) == (Shared {
                sys_status: match error {
                    Some(why) => SysStatus::Error(why),
                    None => SysStatus::Capturing,
                },
                ..*old(self)
            }),
    {
        self.sys_status = match error {
            Some(why) => SysStatus::Error(why),
            None => SysStatus::Capturing,
        };
    }

    /// No source of system audio has been chosen.
    pub fn sys_unselected(&mut self)
        ensures
            *final(self) == (Shared { sys_status: final(self).sys_status, ..*old(self) }),
            final(self).sys_status matches SysStatus::Unavailable(why) && why@
                == "select the PulseAudio/PipeWire monitor source as the system source"@,
    {
        self.sys_status = SysStatus::Unavailable(
            String::from_str(
                "select the PulseAudio/PipeWire monitor source as the system source",
            ),
        );
    }

    /// System audio cannot be captured on this system.
    pub fn sys_unsupported(&mut self)
        ensures
            *final(self) == (Shared { sys_status: final(self).sys_status, ..*old(self) }),
            final(self).sys_status matches SysStatus::Unavailable(why) && why@
                == "system audio capture is not supported on this OS"@,
    {
        self.sys_status = SysStatus::Unavailable(
            String::from_str("system audio capture is not supported on this OS"),
        );
    }

    /// Takes in a message received at `recv_ns`. Every event is shown as the
    /// last one; only those that arrive while a session runs are kept.
    pub fn on_message(&mut self, msg: Parsed, recv_ns: u64) -> (reply: Reply)
        ensures
            reply == match msg {
                Parsed::Ping => Reply::Pong { recv_ns },
                Parsed::Hello => Reply::Hello,
                _ => Reply::Silent,
            },
            *final(self) == (Shared {
                bridge: BridgeStatus {
                    last_event: match msg {
                        Parsed::Event { name, .. } => Some((name, recv_ns)),
                        _ => old(self).bridge.last_event,
                    },
                    ..old(self).bridge
                },
                events: final(self).events,
                ..*old(self)
            }),
            final(self).events@ == match msg {
                Parsed::Event { name, source, meta } if old(self).phase == Phase::Running => old(
                    self,
                ).events@.push(BridgeEvent { t_ns: recv_ns, name, source, meta }),
                _ => old(self).events@,
            },
    {
        match msg {
            Parsed::Event { name, source, meta } => {
                self.bridge.last_event = Some((name.clone(), recv_ns));
                if self.phase == Phase::Running {
                    self.events.push(BridgeEvent { t_ns: recv_ns, name, source, meta });
                }
                Reply::Silent
            },
            Parsed::Ping => Reply::Pong { recv_ns },
            Parsed::Hello => Reply::Hello,
            Parsed::Ignored => Reply::Silent,
        }
    }
}

/// Once stopped, a session's duration no longer grows.
pub proof fn law_stopped_duration_is_fixed(sh: Shared, now_ns: u64, later_ns: u64)
    requires
        sh.phase != Phase::Running,
    ensures
        sh.duration_ns(now_ns) == sh.duration_ns(later_ns),
{
}

/// Statistics count each turn at most once, and only turns that are measured and
/// confirmed.
pub proof fn law_latencies_come_from_confirmed_turns(turns: Seq<TurnRecord>, l: Millis)
    ensures
        confirmed_latencies(turns).len() <= turns.len(),
        confirmed_latencies(turns).contains(l) <==> exists|i: int|
            0 <= i < turns.len() && !(#[trigger] turns[i]).provisional && turns[i].latency_ms
                == Some(l),
    decreases turns.len(),
{
    if turns.len() > 0 {
        let rest = turns.drop_last();
        law_latencies_come_from_confirmed_turns(rest, l);
        let before = confirmed_latencies(rest);
        let after = confirmed_latencies(turns);
        if after.contains(l) {
            let k = choose|k: int| 0 <= k < after.len() && after[k] == l;
            if k < before.len() {
                assert(before[k] == l);
                let i = choose|i: int|
                    0 <= i < rest.len() && !(#[trigger] rest[i]).provisional && rest[i].latency_ms
                        == Some(l);
                assert(turns[i] == rest[i]);
            } else {
                assert(turns[turns.len() - 1] == turns.last());
            }
        }
        if exists|i: int|
            0 <= i < turns.len() && !(#[trigger] turns[i]).provisional && turns[i].latency_ms
                == Some(l) {
            let i = choose|i: int|
                0 <= i < turns.len() && !(#[trigger] turns[i]).provisional && turns[i].latency_ms
                    == Some(l);
            if i < rest.len() {
                assert(rest[i] == turns[i]);
                let k = choose|k: int| 0 <= k < before.len() && before[k] == l;
                assert(after[k] == l);
            } else {
                assert(after.last() == l);
            }
        }
    }
}

/// A time is moved by exactly the offset, and stays on the clock where that would
/// leave it.
pub proof fn law_corrected_time(t_ns: u64, offset: SignedMillis)
    ensures
        0 <= t_ns + offset.ns <= u64::MAX ==> shifted(t_ns, offset) == t_ns + offset.ns,
        t_ns + offset.ns < 0 ==> shifted(t_ns, offset) == 0,
        t_ns + offset.ns > u64::MAX ==> shifted(t_ns, offset) == u64::MAX,
{
}

/// The latencies come in the order of the turns: a further turn adds its own at
/// the end if it is measured and confirmed, and otherwise nothing.
pub proof fn law_latencies_keep_the_order_of_turns(turns: Seq<TurnRecord>, turn: TurnRecord)
    ensures
        confirmed_latencies(Seq::empty()) == Seq::<Millis>::empty(),
        turn.latency_ms is Some && !turn.provisional ==> confirmed_latencies(turns.push(turn))
            == confirmed_latencies(turns).push(turn.latency_ms->0),
        turn.latency_ms is None || turn.provisional ==> confirmed_latencies(turns.push(turn))
            == confirmed_latencies(turns),
{
    assert(turns.push(turn).drop_last() =~= turns);
}

/// A session lasts from its start until now, or until its end; nothing is less
/// than nothing.
pub proof fn law_session_lasts_from_start_to_end(sh: Shared, now_ns: u64)
    ensures
        sh.phase == Phase::Running && sh.session_start_ns <= now_ns ==> sh.session_start_ns
            + sh.duration_ns(now_ns) == now_ns,
        sh.phase == Phase::Running && sh.session_start_ns > now_ns ==> sh.duration_ns(now_ns) == 0,
        sh.phase != Phase::Running && sh.session_start_ns <= sh.session_end_ns
            ==> sh.session_start_ns + sh.duration_ns(now_ns) == sh.session_end_ns,
        sh.phase != Phase::Running && sh.session_start_ns > sh.session_end_ns ==> sh.duration_ns(
            now_ns,
        ) == 0,
{
}

/// The rig latency is that of both devices together, and unknown while that of
/// either is.
pub proof fn law_rig_latency_needs_both_devices(d: DeviceSnapshot)
    ensures
        d.input is None || d.output is None ==> d.rig_latency() is None,
        d.input is Some && d.output is Some ==> {
            let total = d.input->0.total_latency_ms.ns + d.output->0.total_latency_ms.ns;
            &&& d.rig_latency() is Some
            &&& total <= u64::MAX ==> d.rig_latency()->0.ns == total
            &&& total > u64::MAX ==> d.rig_latency()->0.ns == u64::MAX
        },
{
}

/// A lane that holds nothing of a session has no waveform at any level, no block
/// and no speech, finished or in progress.
pub proof fn law_clear_lane_holds_nothing(lane: LaneState)
    requires
        lane.is_clear(),
    ensures
        lane.bins@.len() == 4,
        forall|k: int| 0 <= k < 4 ==> (#[trigger] lane.bins@[k]).len() == 0,
        lane.blocks@.len() == 0,
        lane.open_start_ns is None,
        lane.speech@.len() == 0,
        lane.speech_open_ns is None,
{
}

/// Where nothing has been recorded there is no turn, interruption, event,
/// discontinuity or recording failure, and neither lane holds anything.
pub proof fn law_no_records_are_left(sh: Shared)
    ensures
        sh.has_no_records() ==> {
            &&& sh.turns@.len() == 0
            &&& sh.interruptions@.len() == 0
            &&& sh.events@.len() == 0
            &&& sh.discontinuities@.len() == 0
            &&& sh.wav_error is None
            &&& sh.lanes[0].is_clear()
            &&& sh.lanes[1].is_clear()
        },
        sh.is_clear() ==> sh.has_no_records() && sh.session_start_ns == 0 && sh.session_end_ns == 0,
{
}

/// What surrounds a session stays through it: bridge, settings, devices, the
/// state of the capture, and what the meters show.
pub proof fn law_surroundings_stay(after: Shared, before: Shared)
    requires
        after.same_surroundings(before),
    ensures
        after.bridge == before.bridge,
        after.cfg == before.cfg,
        after.sys_status == before.sys_status,
        after.mic_status == before.mic_status,
        after.devices == before.devices,
        after.available_devices == before.available_devices,
        after.audio_busy == before.audio_busy,
        after.vad_error == before.vad_error,
        after.lanes[0].level_db == before.lanes[0].level_db,
        after.lanes[1].level_db == before.lanes[1].level_db,
        after.lanes[0].effective_threshold_db == before.lanes[0].effective_threshold_db,
        after.lanes[1].effective_threshold_db == before.lanes[1].effective_threshold_db,
        after.lanes[0].dropped == before.lanes[0].dropped,
        after.lanes[1].dropped == before.lanes[1].dropped,
        after.lanes[0].last_sample_ns == before.lanes[0].last_sample_ns,
        after.lanes[1].last_sample_ns == before.lanes[1].last_sample_ns,
{
}

} // verus!
