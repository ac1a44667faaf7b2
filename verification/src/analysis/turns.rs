//! Turn pairing: matches the end of user speech to the onset of bot audio.
//!
//! Bot blocks separated by less than the merge gap (TTS sentence pauses)
//! are grouped into one bot response. Anomalies (barge-in, double talk, bot
//! self-continuation) are flagged, never silently dropped.

use vstd::prelude::*;
use crate::analysis::segmenter::SegEvent;
use crate::audio::{LANE_MIC, LANE_SYS};
use crate::millis::{span_ns, Millis, NS_PER_MS};
use crate::text::join;
use crate::text::joined;

verus! {

/// What was unusual about a turn.
#[derive(Clone, Copy, Debug, PartialEq, Eq, Structural)]
pub struct TurnFlags {
    /// User started speaking while bot audio was playing (interruption).
    pub barge_in: bool,
    /// User and bot audio overlapped substantially.
    pub double_talk: bool,
    /// Bot spoke without any user speech since the previous bot response.
    pub no_user_speech: bool,
    /// An output-device change happened near this turn; timing suspect.
    pub after_discontinuity: bool,
}

/// One exchange: a user utterance and the bot response that followed it.
#[derive(Clone, Copy, Debug, PartialEq, Eq, Structural)]
pub struct TurnRecord {
    /// Position in the session, from zero.
    pub index: usize,
    /// End of the user utterance that triggered this response.
    pub user_end_ns: Option<u64>,
    /// Start of the user utterance.
    pub user_start_ns: Option<u64>,
    /// First bot audio of the response group.
    pub bot_onset_ns: u64,
    /// End of the last bot block in the group (updates as the group extends).
    pub bot_group_end_ns: Option<u64>,
    /// The headline metric: user stopped to bot audio started.
    pub latency_ms: Option<Millis>,
    /// Gap between previous bot response end and this turn's user speech start.
    pub user_response_ms: Option<Millis>,
    /// True until the bot's first block survives min-block filtering.
    pub provisional: bool,
    pub flags: TurnFlags,
}

/// A barge-in and its outcome: mic audio started while bot audio was playing;
/// the interruption triggered when system audio actually stopped.
#[derive(Clone, Copy, Debug, PartialEq, Eq, Structural)]
pub struct InterruptionRecord {
    /// Mic audio onset that barged in over bot audio.
    pub mic_open_ns: u64,
    /// When system audio actually stopped (`None` while still playing).
    pub sys_stop_ns: Option<u64>,
    /// From `mic_open_ns` to `sys_stop_ns`: how long the bot kept talking.
    pub stop_ms: Option<Millis>,
}

/// A barging mic block shorter than this that ends while the bot is still
/// talking is treated as echo or noise, and its interruption is retracted.
pub const MIN_BARGE_MS: u64 = 250;

/// A finished user utterance.
#[derive(Clone, Copy, Debug, PartialEq, Eq, Structural)]
pub struct UserBlock {
    pub start_ns: u64,
    pub end_ns: u64,
    /// The utterance began while bot audio was audible (a barge-in).
    pub during_bot: bool,
}

/// A user utterance in progress.
#[derive(Clone, Copy, Debug, PartialEq, Eq, Structural)]
pub struct OpenUser {
    pub start_ns: u64,
    /// It began while bot audio was audible (a barge-in), as far as is known.
    pub during_bot: bool,
    /// A bot block was in progress when it was reported, be it only held open or
    /// a blip.
    pub over_bot: bool,
    /// Index of the interruption record this utterance created, if any.
    pub interruption_idx: Option<usize>,
}

/// The bot response in progress, or the last one.
#[derive(Clone, Copy, Debug, PartialEq, Eq, Structural)]
pub struct BotGroup {
    pub onset_ns: u64,
    pub last_end_ns: Option<u64>,
    /// Onset of the bot block being played, if one is.
    pub open_since_ns: Option<u64>,
    pub turn_index: usize,
    pub closed_blocks: usize,
    /// A mic block was still open when this group started, usually only
    /// hangover keeping it open, its Close backdated to before the onset.
    /// The turn's user pairing is resolved when that block closes or cancels.
    pub awaiting_user: bool,
    /// Latest closed user block at group start: the pairing fallback if the
    /// pending block turns out to be a cancelled blip.
    pub fallback_user: Option<UserBlock>,
    /// When the response before this one ended.
    pub prev_end_ns: Option<u64>,
}

/// The response before the current one, kept until the current one proves to
/// be more than a blip: both as they are if it never was.
#[derive(Clone, Copy, Debug, PartialEq, Eq, Structural)]
pub struct Displaced {
    pub group: BotGroup,
    /// The response's turn.
    pub turn: Option<TurnRecord>,
}

/// The pairing state machine. Feed it both lanes' edges in time order.
pub struct TurnTracker {
    user_blocks: Vec<UserBlock>,
    user_open: Option<OpenUser>,
    group: Option<BotGroup>,
    displaced: Option<Displaced>,
    pending_discontinuity: bool,
    pending_interruption: Option<usize>,
}

/// What a [`TurnTracker`] remembers.
#[verifier::ext_equal]
pub struct TrackerState {
    pub user_blocks: Seq<UserBlock>,
    pub user_open: Option<OpenUser>,
    pub group: Option<BotGroup>,
    pub displaced: Option<Displaced>,
    /// A device change that no turn has been flagged for yet.
    pub pending_discontinuity: bool,
    /// Index of the in-flight barge-in.
    pub pending_interruption: Option<usize>,
}

/// A tracker together with the records it maintains.
#[verifier::ext_equal]
pub struct Scene {
    pub tracker: TrackerState,
    pub turns: Seq<TurnRecord>,
    pub interruptions: Seq<InterruptionRecord>,
}

impl View for TurnTracker {
    type V = TrackerState;

    closed spec fn view(&self) -> TrackerState {
        TrackerState {
            user_blocks: self.user_blocks@,
            user_open: self.user_open,
            group: self.group,
            displaced: self.displaced,
            pending_discontinuity: self.pending_discontinuity,
            pending_interruption: self.pending_interruption,
        }
    }
}

/// The state before any event.
pub open spec fn fresh_tracker() -> TrackerState {
    TrackerState {
        user_blocks: Seq::empty(),
        user_open: None,
        group: None,
        displaced: None,
        pending_discontinuity: false,
        pending_interruption: None,
    }
}

/// A block of response `g` is being played.
pub open spec fn playing(g: BotGroup) -> bool {
    g.open_since_ns is Some
}

/// Bot audio is playing right now.
pub open spec fn audible(t: TrackerState) -> bool {
    t.group matches Some(g) && playing(g)
}

/// A span long enough to be a real utterance rather than echo or noise.
pub open spec fn sustained(from: u64, to: u64) -> bool {
    span_ns(from, to) >= MIN_BARGE_MS * NS_PER_MS
}

/// `records` without the record at `idx`, if that is the last one.
pub open spec fn retracted(records: Seq<InterruptionRecord>, idx: usize) -> Seq<InterruptionRecord> {
    if idx + 1 == records.len() {
        records.drop_last()
    } else {
        records
    }
}

/// `turns` with the record at `idx`, if there is one, replaced.
pub open spec fn with_turn(turns: Seq<TurnRecord>, idx: usize, turn: TurnRecord) -> Seq<TurnRecord> {
    if idx < turns.len() {
        turns.update(idx as int, turn)
    } else {
        turns
    }
}

pub open spec fn marked_double_talk(turn: TurnRecord) -> TurnRecord {
    TurnRecord { flags: TurnFlags { double_talk: true, ..turn.flags }, ..turn }
}

/// How long after the end of the previous response the user spoke, if not
/// before it.
pub open spec fn response_gap(prev_end_ns: Option<u64>, start_ns: u64) -> Option<Millis> {
    match prev_end_ns {
        Some(end) if start_ns > end => Some(Millis { ns: (start_ns - end) as u64 }),
        _ => None,
    }
}

/// `turn`, the turn of response `g`, answered the utterance `b`.
pub open spec fn paired(turn: TurnRecord, g: BotGroup, b: UserBlock) -> TurnRecord {
    TurnRecord {
        user_end_ns: Some(b.end_ns),
        user_start_ns: Some(b.start_ns),
        latency_ms: Some(Millis { ns: span_ns(b.end_ns, g.onset_ns) }),
        user_response_ms: response_gap(g.prev_end_ns, b.start_ns),
        flags: TurnFlags { barge_in: b.during_bot, no_user_speech: false, ..turn.flags },
        ..turn
    }
}

/// The latest utterance that ended by `onset_ns` and after `after_ns`.
pub open spec fn latest_utterance(blocks: Seq<UserBlock>, onset_ns: u64, after_ns: u64) -> Option<
    UserBlock,
>
    decreases blocks.len(),
{
    if blocks.len() == 0 {
        None
    } else if blocks.last().end_ns <= onset_ns && blocks.last().end_ns > after_ns {
        Some(blocks.last())
    } else {
        latest_utterance(blocks.drop_last(), onset_ns, after_ns)
    }
}

/// The user starts making sound. Over audible bot audio this is a barge-in,
/// recorded unless one is already in flight.
pub open spec fn mic_opened(s: Scene, t_ns: u64) -> Scene {
    let barges = audible(s.tracker) && s.tracker.pending_interruption is None;
    let idx = s.interruptions.len() as usize;
    Scene {
        tracker: TrackerState {
            user_open: Some(
                OpenUser {
                    start_ns: t_ns,
                    during_bot: audible(s.tracker),
                    over_bot: audible(s.tracker),
                    interruption_idx: if barges {
                        Some(idx)
                    } else {
                        None
                    },
                },
            ),
            pending_interruption: if barges {
                Some(idx)
            } else {
                s.tracker.pending_interruption
            },
            ..s.tracker
        },
        interruptions: if barges {
            s.interruptions.push(
                InterruptionRecord { mic_open_ns: t_ns, sys_stop_ns: None, stop_ms: None },
            )
        } else {
            s.interruptions
        },
        ..s
    }
}

/// A blip that ended while the bot kept talking never was a barge-in: its
/// record is retracted. A record completed by the bot stopping stays.
pub open spec fn blip_retracted(s: Scene, open: OpenUser, t_ns: u64) -> Scene {
    if open.interruption_idx is Some && !sustained(open.start_ns, t_ns)
        && s.tracker.pending_interruption == open.interruption_idx {
        Scene {
            tracker: TrackerState { pending_interruption: None, ..s.tracker },
            interruptions: retracted(s.interruptions, open.interruption_idx->0),
            ..s
        }
    } else {
        s
    }
}

/// Completes `turn`, the turn of response `g`, whose pairing waited for a mic
/// block that was open at its onset. `closed` is that block, or `None` if it was
/// cancelled. A block ending by the onset is the utterance answered; a sustained
/// one reaching past it is double talk; otherwise the turn falls back to the
/// last closed utterance.
pub open spec fn completed(turn: TurnRecord, g: BotGroup, closed: Option<UserBlock>) -> TurnRecord {
    match closed {
        Some(b) if b.end_ns <= g.onset_ns => paired(turn, g, b),
        Some(b) if sustained(b.start_ns, b.end_ns) => marked_double_talk(turn),
        _ => match g.fallback_user {
            Some(b) => paired(turn, g, b),
            None => TurnRecord {
                user_response_ms: None,
                flags: TurnFlags { no_user_speech: true, ..turn.flags },
                ..turn
            },
        },
    }
}

/// The mic block that pairings waited for has closed, or was cancelled: the
/// current turn is completed, and so is the one displaced by it, in case the
/// current one is taken back.
pub open spec fn resolved(s: Scene, closed: Option<UserBlock>) -> Scene {
    Scene {
        tracker: TrackerState {
            group: match s.tracker.group {
                Some(g) if g.awaiting_user => Some(BotGroup { awaiting_user: false, ..g }),
                g => g,
            },
            displaced: match s.tracker.displaced {
                Some(d) if d.group.awaiting_user => Some(
                    Displaced {
                        group: BotGroup { awaiting_user: false, ..d.group },
                        turn: match d.turn {
                            Some(turn) => Some(completed(turn, d.group, closed)),
                            None => None,
                        },
                    },
                ),
                d => d,
            },
            ..s.tracker
        },
        turns: match s.tracker.group {
            Some(g) if g.awaiting_user => with_turn(
                s.turns,
                g.turn_index,
                completed(s.turns[g.turn_index as int], g, closed),
            ),
            _ => s.turns,
        },
        ..s
    }
}

/// A sustained utterance that ends at `t_ns` overlaps the response being played:
/// it runs on under the block being played, or a block was already in progress
/// when it began.
pub open spec fn overlaps(g: BotGroup, open: OpenUser, t_ns: u64) -> bool {
    &&& playing(g)
    &&& sustained(open.start_ns, t_ns)
    &&& t_ns >= g.onset_ns
    &&& open.over_bot || t_ns > g.open_since_ns->0
}

/// Sustained user audio under the response being played is double talk.
pub open spec fn overlap_marked(s: Scene, open: OpenUser, t_ns: u64) -> Scene {
    match s.tracker.group {
        Some(g) if overlaps(g, open, t_ns) => Scene {
            turns: with_turn(
                s.turns,
                g.turn_index,
                marked_double_talk(s.turns[g.turn_index as int]),
            ),
            ..s
        },
        _ => s,
    }
}

/// The utterance as it is remembered. One too short for a barge-in that ends
/// while the bot is talking is echo or noise, and does not count as one.
pub open spec fn finished_block(s: Scene, open: OpenUser, t_ns: u64) -> UserBlock {
    UserBlock {
        start_ns: open.start_ns,
        end_ns: t_ns,
        during_bot: open.during_bot && !(audible(s.tracker) && !sustained(open.start_ns, t_ns)),
    }
}

/// The user stops making sound; `t_ns` is backdated to the last sound.
pub open spec fn mic_closed(s: Scene, t_ns: u64) -> Scene {
    match s.tracker.user_open {
        None => s,
        Some(open) => {
            let block = finished_block(s, open, t_ns);
            let finished = Scene {
                tracker: TrackerState {
                    user_open: None,
                    user_blocks: s.tracker.user_blocks.push(block),
                    ..s.tracker
                },
                ..s
            };
            overlap_marked(
                resolved(blip_retracted(finished, open, t_ns), Some(block)),
                open,
                t_ns,
            )
        },
    }
}

/// The sound from the user was too short to count.
pub open spec fn mic_cancelled(s: Scene) -> Scene {
    match s.tracker.user_open {
        None => s,
        Some(open) => {
            let forgotten = Scene {
                tracker: TrackerState {
                    user_open: None,
                    pending_interruption: if open.interruption_idx is Some
                        && s.tracker.pending_interruption == open.interruption_idx {
                        None
                    } else {
                        s.tracker.pending_interruption
                    },
                    ..s.tracker
                },
                interruptions: match open.interruption_idx {
                    Some(idx) => retracted(s.interruptions, idx),
                    None => s.interruptions,
                },
                ..s
            };
            resolved(forgotten, None)
        },
    }
}

/// A new bot response starts: one more turn. It is paired at once with the
/// latest utterance that ended by the onset and after the previous response
/// began, unless a mic block is still open, which defers the pairing.
pub open spec fn group_started(s: Scene, onset_ns: u64) -> Scene {
    let turns = match s.tracker.group {
        Some(g) if g.awaiting_user && s.tracker.user_open is Some => with_turn(
            s.turns,
            g.turn_index,
            marked_double_talk(s.turns[g.turn_index as int]),
        ),
        _ => s.turns,
    };
    let user = latest_utterance(
        s.tracker.user_blocks,
        onset_ns,
        match s.tracker.group {
            Some(g) => g.onset_ns,
            None => 0,
        },
    );
    let prev_end = match s.tracker.group {
        Some(g) => g.last_end_ns,
        None => None,
    };
    let awaiting = s.tracker.user_open is Some;
    let turn = TurnRecord {
        index: turns.len() as usize,
        user_end_ns: match user {
            Some(b) => Some(b.end_ns),
            None => None,
        },
        user_start_ns: match user {
            Some(b) => Some(b.start_ns),
            None => None,
        },
        bot_onset_ns: onset_ns,
        bot_group_end_ns: None,
        latency_ms: match user {
            Some(b) if !awaiting => Some(Millis { ns: span_ns(b.end_ns, onset_ns) }),
            _ => None,
        },
        user_response_ms: match (user, s.tracker.user_open) {
            (Some(b), _) => response_gap(prev_end, b.start_ns),
            (None, Some(open)) => response_gap(prev_end, open.start_ns),
            (None, None) => None,
        },
        provisional: true,
        flags: TurnFlags {
            barge_in: !awaiting && user is Some && user->0.during_bot,
            double_talk: false,
            no_user_speech: !awaiting && user is None,
            after_discontinuity: s.tracker.pending_discontinuity,
        },
    };
    Scene {
        tracker: TrackerState {
            group: Some(
                BotGroup {
                    onset_ns,
                    last_end_ns: None,
                    open_since_ns: Some(onset_ns),
                    turn_index: turns.len() as usize,
                    closed_blocks: 0,
                    awaiting_user: awaiting,
                    fallback_user: user,
                    prev_end_ns: prev_end,
                },
            ),
            displaced: match s.tracker.group {
                Some(g) => Some(
                    Displaced {
                        group: g,
                        turn: if g.turn_index < s.turns.len() {
                            Some(s.turns[g.turn_index as int])
                        } else {
                            None
                        },
                    },
                ),
                None => None,
            },
            pending_discontinuity: false,
            ..s.tracker
        },
        turns: turns.push(turn),
        ..s
    }
}

/// Sound at `t_ns` still belongs to group `g`.
pub open spec fn merges(g: BotGroup, t_ns: u64, merge_gap_ms: u64) -> bool {
    let last = match g.last_end_ns {
        Some(end) => end,
        None => g.onset_ns,
    };
    span_ns(last, t_ns) < merge_gap_ms * NS_PER_MS
}

/// The bot starts making sound: it continues the current response after a
/// short enough pause, and starts a new one otherwise.
pub open spec fn sys_opened(s: Scene, t_ns: u64, merge_gap_ms: u64) -> Scene {
    match s.tracker.group {
        Some(g) if playing(g) => s,
        Some(g) if merges(g, t_ns, merge_gap_ms) => Scene {
            tracker: TrackerState {
                group: Some(BotGroup { open_since_ns: Some(t_ns), ..g }),
                ..s.tracker
            },
            ..s
        },
        _ => group_started(s, t_ns),
    }
}

/// The barge-in in flight triggered at `t_ns`. A stop backdated to before the
/// mic onset means the bot was already silent: no interruption at all.
pub open spec fn interruption_settled(
    records: Seq<InterruptionRecord>,
    idx: usize,
    t_ns: u64,
) -> Seq<InterruptionRecord> {
    if idx < records.len() && t_ns > records[idx as int].mic_open_ns {
        records.update(
            idx as int,
            InterruptionRecord {
                sys_stop_ns: Some(t_ns),
                stop_ms: Some(Millis { ns: (t_ns - records[idx as int].mic_open_ns) as u64 }),
                ..records[idx as int]
            },
        )
    } else {
        retracted(records, idx)
    }
}

/// One more block of a response; the count stops at the largest `usize`.
pub open spec fn one_more(n: usize) -> usize {
    if n == usize::MAX {
        n
    } else {
        (n + 1) as usize
    }
}

/// The utterance in progress, now known not to have begun over bot audio.
pub open spec fn begun_in_silence(open: Option<OpenUser>) -> Option<OpenUser> {
    match open {
        Some(open) => Some(OpenUser { during_bot: false, ..open }),
        None => None,
    }
}

/// The bot stops making sound; `t_ns` is backdated to the last sound. Speech
/// that began no earlier than that was no barge-in.
pub open spec fn sys_closed(s: Scene, t_ns: u64) -> Scene {
    Scene {
        tracker: TrackerState {
            group: match s.tracker.group {
                Some(g) => Some(
                    BotGroup {
                        open_since_ns: None,
                        last_end_ns: Some(t_ns),
                        closed_blocks: one_more(g.closed_blocks),
                        ..g
                    },
                ),
                None => None,
            },
            displaced: None,
            user_open: match s.tracker.user_open {
                Some(open) if open.start_ns >= t_ns => begun_in_silence(s.tracker.user_open),
                open => open,
            },
            pending_interruption: None,
            ..s.tracker
        },
        turns: match s.tracker.group {
            Some(g) => with_turn(
                s.turns,
                g.turn_index,
                TurnRecord {
                    provisional: false,
                    bot_group_end_ns: Some(t_ns),
                    ..s.turns[g.turn_index as int]
                },
            ),
            None => s.turns,
        },
        interruptions: match s.tracker.pending_interruption {
            Some(idx) => interruption_settled(s.interruptions, idx, t_ns),
            None => s.interruptions,
        },
    }
}

/// The sound from the bot was too short to count, and so was any barge-in over
/// it. If it was all the response there was, the turn is taken back, and the
/// response before it is the current one again.
pub open spec fn sys_cancelled(s: Scene) -> Scene {
    let first_blip = s.tracker.group matches Some(g) && playing(g) && g.closed_blocks == 0;
    let taken_back = first_blip && s.tracker.group->0.turn_index + 1 == s.turns.len()
        && s.turns.last().provisional;
    let turns = if taken_back {
        s.turns.drop_last()
    } else {
        s.turns
    };
    Scene {
        tracker: TrackerState {
            group: match s.tracker.group {
                Some(g) if first_blip => match s.tracker.displaced {
                    Some(d) => Some(d.group),
                    None => None,
                },
                Some(g) => Some(BotGroup { open_since_ns: None, ..g }),
                None => None,
            },
            displaced: if first_blip {
                None
            } else {
                s.tracker.displaced
            },
            user_open: if s.tracker.pending_interruption is Some {
                begun_in_silence(s.tracker.user_open)
            } else {
                s.tracker.user_open
            },
            pending_discontinuity: s.tracker.pending_discontinuity || (taken_back
                && s.turns.last().flags.after_discontinuity),
            pending_interruption: None,
            ..s.tracker
        },
        turns: match s.tracker.displaced {
            Some(d) if first_blip && d.turn is Some => with_turn(
                turns,
                d.group.turn_index,
                d.turn->0,
            ),
            _ => turns,
        },
        interruptions: match s.tracker.pending_interruption {
            Some(idx) => retracted(s.interruptions, idx),
            None => s.interruptions,
        },
    }
}

/// How one edge of activity changes a scene. Other lanes do not count.
pub open spec fn scene_after(s: Scene, lane: usize, event: SegEvent, merge_gap_ms: u64) -> Scene {
    if lane == LANE_MIC {
        match event {
            SegEvent::Open { t_ns } => mic_opened(s, t_ns),
            SegEvent::Close { t_ns } => mic_closed(s, t_ns),
            SegEvent::Cancel => mic_cancelled(s),
        }
    } else if lane == LANE_SYS {
        match event {
            SegEvent::Open { t_ns } => sys_opened(s, t_ns, merge_gap_ms),
            SegEvent::Close { t_ns } => sys_closed(s, t_ns),
            SegEvent::Cancel => sys_cancelled(s),
        }
    } else {
        s
    }
}

/// The names of the flags that are set.
pub open spec fn flag_names(flags: TurnFlags) -> Seq<Seq<char>> {
    let none = Seq::<Seq<char>>::empty();
    (if flags.barge_in {
        none.push("barge-in"@)
    } else {
        none
    }) + (if flags.double_talk {
        none.push("double-talk"@)
    } else {
        none
    }) + (if flags.no_user_speech {
        none.push("no-user-speech"@)
    } else {
        none
    }) + (if flags.after_discontinuity {
        none.push("device-change"@)
    } else {
        none
    })
}

impl Default for TurnFlags {
    fn default() -> (flags: TurnFlags)
        ensures
            !flags.barge_in && !flags.double_talk && !flags.no_user_speech
                && !flags.after_discontinuity,
    {
        TurnFlags {
            barge_in: false,
            double_talk: false,
            no_user_speech: false,
            after_discontinuity: false,
        }
    }
}

impl TurnFlags {
    /// Whether anything was unusual.
    pub fn any(&self) -> (b: bool)
        ensures
            b == (self.barge_in || self.double_talk || self.no_user_speech
                || self.after_discontinuity),
    {
        self.barge_in || self.double_talk || self.no_user_speech || self.after_discontinuity
    }

    /// The flags that are set, by name.
    pub fn summary(&self) -> (text: String)
        ensures
            text@ == joined(flag_names(*self), ", "@),
    {
        let mut parts: Vec<&str> = Vec::new();
        if self.barge_in {
            parts.push("barge-in");
        }
        if self.double_talk {
            parts.push("double-talk");
        }
        if self.no_user_speech {
            parts.push("no-user-speech");
        }
        if self.after_discontinuity {
            parts.push("device-change");
        }
        assert(parts@.map_values(|p: &str| p@) =~= flag_names(*self));
        join(&parts, ", ")
    }
}

/// Removes the record at `idx` if it is the last one.
fn retract(records: &mut Vec<InterruptionRecord>, idx: usize)
    ensures
        final(records)@ == retracted(old(records)@, idx),
{
    if records.len() > 0 && idx == records.len() - 1 {
        records.pop();
    }
}

/// Flags the turn at `idx`, if there is one.
fn mark_double_talk(turns: &mut Vec<TurnRecord>, idx: usize)
    ensures
        final(turns)@ == with_turn(old(turns)@, idx, marked_double_talk(old(turns)@[idx as int])),
{
    if idx < turns.len() {
        turns[idx].flags.double_talk = true;
    }
}

/// The gap from the end of the previous response to the start of speech.
fn gap_after(prev_end_ns: Option<u64>, start_ns: u64) -> (gap: Option<Millis>)
    ensures
        gap == response_gap(prev_end_ns, start_ns),
{
    match prev_end_ns {
        Some(end) => if start_ns > end {
            Some(Millis { ns: start_ns - end })
        } else {
            None
        },
        None => None,
    }
}

/// Completes a turn whose pairing waited for a mic block.
fn complete(turn: TurnRecord, g: &BotGroup, closed: Option<UserBlock>) -> (done: TurnRecord)
    ensures
        done == completed(turn, *g, closed),
{
    let user = match closed {
        Some(b) => {
            if b.end_ns <= g.onset_ns {
                Some(b)
            } else if Millis::between(b.start_ns, b.end_ns).at_least(MIN_BARGE_MS) {
                return TurnRecord { flags: TurnFlags { double_talk: true, ..turn.flags }, ..turn };
            } else {
                g.fallback_user
            }
        },
        None => g.fallback_user,
    };
    match user {
        Some(b) => TurnRecord {
            user_end_ns: Some(b.end_ns),
            user_start_ns: Some(b.start_ns),
            latency_ms: Some(Millis::between(b.end_ns, g.onset_ns)),
            user_response_ms: gap_after(g.prev_end_ns, b.start_ns),
            flags: TurnFlags { barge_in: b.during_bot, no_user_speech: false, ..turn.flags },
            ..turn
        },
        None => TurnRecord {
            user_response_ms: None,
            flags: TurnFlags { no_user_speech: true, ..turn.flags },
            ..turn
        },
    }
}

impl TurnTracker {
    pub fn new() -> (tracker: TurnTracker)
        ensures
            tracker@ == fresh_tracker(),
    {
        TurnTracker {
            user_blocks: Vec::new(),
            user_open: None,
            group: None,
            displaced: None,
            pending_discontinuity: false,
            pending_interruption: None,
        }
    }

    pub fn reset(&mut self)
        ensures
            final(self)@ == fresh_tracker(),
    {
        *self = TurnTracker::new();
    }

    /// The output device changed: the next turn's timing is suspect.
    pub fn note_discontinuity(&mut self)
        ensures
            final(self)@ == (TrackerState { pending_discontinuity: true, ..old(self)@ }),
    {
        self.pending_discontinuity = true;
    }

    fn bot_audible(&self) -> (b: bool)
        ensures
            b == audible(self@),
    {
        match &self.group {
            Some(g) => g.open_since_ns.is_some(),
            None => false,
        }
    }

    /// Takes one edge of activity and updates the turns and interruptions.
    pub fn on_event(
        &mut self,
        lane: usize,
        event: SegEvent,
        merge_gap_ms: u64,
        turns: &mut Vec<TurnRecord>,
        interruptions: &mut Vec<InterruptionRecord>,
    )
        ensures
            (Scene {
                tracker: final(self)@,
                turns: final(turns)@,
                interruptions: final(interruptions)@,
            }) == scene_after(
                Scene {
                    tracker: old(self)@,
                    turns: old(turns)@,
                    interruptions: old(interruptions)@,
                },
                lane,
                event,
                merge_gap_ms,
            ),
    {
        if lane == LANE_MIC {
            self.on_user_event(event, turns, interruptions);
        } else if lane == LANE_SYS {
            self.on_bot_event(event, merge_gap_ms, turns, interruptions);
        }
    }

    fn on_user_event(
        &mut self,
        event: SegEvent,
        turns: &mut Vec<TurnRecord>,
        interruptions: &mut Vec<InterruptionRecord>,
    )
        ensures
            (Scene {
                tracker: final(self)@,
                turns: final(turns)@,
                interruptions: final(interruptions)@,
            }) == scene_after(
                Scene {
                    tracker: old(self)@,
                    turns: old(turns)@,
                    interruptions: old(interruptions)@,
                },
                LANE_MIC,
                event,
                0,
            ),
    {
        match event {
            SegEvent::Open { t_ns } => {
                let during_bot = self.bot_audible();
                let mut interruption_idx: Option<usize> = None;
                if during_bot && self.pending_interruption.is_none() {
                    // The record completes when system audio actually stops.
                    let idx: usize = interruptions.len();
                    interruptions.push(
                        InterruptionRecord { mic_open_ns: t_ns, sys_stop_ns: None, stop_ms: None },
                    );
                    self.pending_interruption = Some(idx);
                    interruption_idx = Some(idx);
                }
                self.user_open = Some(
                    OpenUser { start_ns: t_ns, during_bot, over_bot: during_bot, interruption_idx },
                );
            },
            SegEvent::Close { t_ns } => {
                if let Some(open) = self.user_open.take() {
                    let long = Millis::between(open.start_ns, t_ns).at_least(MIN_BARGE_MS);
                    let block = UserBlock {
                        start_ns: open.start_ns,
                        end_ns: t_ns,
                        during_bot: open.during_bot && (long || !self.bot_audible()),
                    };
                    self.user_blocks.push(block);
                    if let Some(idx) = open.interruption_idx {
                        if !long && self.pending_interruption == Some(idx) {
                            retract(interruptions, idx);
                            self.pending_interruption = None;
                        }
                    }
                    self.resolve_awaiting_user(Some(block), turns);
                    if long {
                        if let Some(g) = &self.group {
                            if let Some(since_ns) = g.open_since_ns {
                                if t_ns >= g.onset_ns && (open.over_bot || t_ns > since_ns) {
                                    mark_double_talk(turns, g.turn_index);
                                }
                            }
                        }
                    }
                }
            },
            SegEvent::Cancel => {
                if let Some(open) = self.user_open.take() {
                    if let Some(idx) = open.interruption_idx {
                        retract(interruptions, idx);
                        if self.pending_interruption == Some(idx) {
                            self.pending_interruption = None;
                        }
                    }
                    self.resolve_awaiting_user(None, turns);
                }
            },
        }
    }

    fn resolve_awaiting_user(&mut self, closed: Option<UserBlock>, turns: &mut Vec<TurnRecord>)
        ensures
            forall|itr: Seq<InterruptionRecord>| #![trigger resolved(Scene { tracker: old(self)@, turns: old(turns)@, interruptions: itr }, closed)]
                (Scene { tracker: final(self)@, turns: final(turns)@, interruptions: itr })
                    == resolved(
                    Scene { tracker: old(self)@, turns: old(turns)@, interruptions: itr },
                    closed,
                ),
    {
        if let Some(d) = self.displaced {
            if d.group.awaiting_user {
                let turn = match d.turn {
                    Some(turn) => Some(complete(turn, &d.group, closed)),
                    None => None,
                };
                self.displaced = Some(
                    Displaced { group: BotGroup { awaiting_user: false, ..d.group }, turn },
                );
            }
        }
        if let Some(g) = self.group {
            if g.awaiting_user {
                self.group = Some(BotGroup { awaiting_user: false, ..g });
                let idx: usize = g.turn_index;
                if idx < turns.len() {
                    turns[idx] = complete(turns[idx], &g, closed);
                }
            }
        }
    }

    /// The utterance in progress did not begin over bot audio after all.
    fn clear_barge(&mut self)
        ensures
            final(self)@ == (TrackerState {
                user_open: begun_in_silence(old(self)@.user_open),
                ..old(self)@
            }),
    {
        if let Some(open) = self.user_open {
            self.user_open = Some(OpenUser { during_bot: false, ..open });
        }
    }

    fn on_bot_event(
        &mut self,
        event: SegEvent,
        merge_gap_ms: u64,
        turns: &mut Vec<TurnRecord>,
        interruptions: &mut Vec<InterruptionRecord>,
    )
        ensures
            (Scene {
                tracker: final(self)@,
                turns: final(turns)@,
                interruptions: final(interruptions)@,
            }) == scene_after(
                Scene {
                    tracker: old(self)@,
                    turns: old(turns)@,
                    interruptions: old(interruptions)@,
                },
                LANE_SYS,
                event,
                merge_gap_ms,
            ),
    {
        match event {
            SegEvent::Open { t_ns } => {
                if let Some(g) = self.group {
                    if g.open_since_ns.is_some() {
                        // The lane is already active: a continuation.
                        return;
                    }
                    let last: u64 = g.last_end_ns.unwrap_or(g.onset_ns);
                    if !Millis::between(last, t_ns).at_least(merge_gap_ms) {
                        self.group = Some(BotGroup { open_since_ns: Some(t_ns), ..g });
                        return;
                    }
                }
                self.start_new_group(t_ns, turns);
            },
            SegEvent::Close { t_ns } => {
                if let Some(g) = self.group {
                    self.group = Some(
                        BotGroup {
                            open_since_ns: None,
                            last_end_ns: Some(t_ns),
                            closed_blocks: g.closed_blocks.saturating_add(1),
                            ..g
                        },
                    );
                    let idx: usize = g.turn_index;
                    if idx < turns.len() {
                        turns[idx].provisional = false;
                        turns[idx].bot_group_end_ns = Some(t_ns);
                    }
                }
                self.displaced = None;
                if let Some(open) = self.user_open {
                    if open.start_ns >= t_ns {
                        self.clear_barge();
                    }
                }
                if let Some(idx) = self.pending_interruption.take() {
                    if idx < interruptions.len() && t_ns > interruptions[idx].mic_open_ns {
                        let mic_open_ns: u64 = interruptions[idx].mic_open_ns;
                        interruptions[idx].sys_stop_ns = Some(t_ns);
                        interruptions[idx].stop_ms = Some(Millis { ns: t_ns - mic_open_ns });
                    } else {
                        retract(interruptions, idx);
                    }
                }
            },
            SegEvent::Cancel => {
                if let Some(idx) = self.pending_interruption.take() {
                    retract(interruptions, idx);
                    self.clear_barge();
                }
                if let Some(g) = self.group {
                    if g.open_since_ns.is_some() && g.closed_blocks == 0 {
                        if turns.len() > 0 && g.turn_index == turns.len() - 1
                            && turns[g.turn_index].provisional {
                            if turns[g.turn_index].flags.after_discontinuity {
                                self.pending_discontinuity = true;
                            }
                            turns.pop();
                        }
                        self.restore_displaced(turns);
                    } else {
                        self.group = Some(BotGroup { open_since_ns: None, ..g });
                    }
                }
            },
        }
    }

    fn start_new_group(&mut self, onset_ns: u64, turns: &mut Vec<TurnRecord>)
        ensures
            forall|itr: Seq<InterruptionRecord>| #![trigger group_started(Scene { tracker: old(self)@, turns: old(turns)@, interruptions: itr }, onset_ns)]
                (Scene { tracker: final(self)@, turns: final(turns)@, interruptions: itr })
                    == group_started(
                    Scene { tracker: old(self)@, turns: old(turns)@, interruptions: itr },
                    onset_ns,
                ),
    {
        let prev = self.group;
        self.displaced = None;
        let mut after_ns: u64 = 0;
        let mut prev_end_ns: Option<u64> = None;
        if let Some(prev) = prev {
            let idx: usize = prev.turn_index;
            let turn = if idx < turns.len() {
                Some(turns[idx])
            } else {
                None
            };
            self.displaced = Some(Displaced { group: prev, turn });
            // Pairing still deferred with the user still talking: that turn
            // really was talked over throughout.
            if prev.awaiting_user && self.user_open.is_some() {
                mark_double_talk(turns, idx);
            }
            after_ns = prev.onset_ns;
            prev_end_ns = prev.last_end_ns;
        }
        let user = self.find_utterance(onset_ns, after_ns);
        let awaiting_user = self.user_open.is_some();
        let (user_end_ns, user_start_ns, during_bot) = match user {
            Some(b) => (Some(b.end_ns), Some(b.start_ns), b.during_bot),
            None => (None, None, false),
        };
        let latency_ms = match user {
            Some(b) => if awaiting_user {
                None
            } else {
                Some(Millis::between(b.end_ns, onset_ns))
            },
            None => None,
        };
        let user_response_ms = match (user, self.user_open) {
            (Some(b), _) => gap_after(prev_end_ns, b.start_ns),
            (None, Some(open)) => gap_after(prev_end_ns, open.start_ns),
            (None, None) => None,
        };
        let index: usize = turns.len();
        turns.push(
            TurnRecord {
                index,
                user_end_ns,
                user_start_ns,
                bot_onset_ns: onset_ns,
                bot_group_end_ns: None,
                latency_ms,
                user_response_ms,
                provisional: true,
                flags: TurnFlags {
                    barge_in: !awaiting_user && during_bot,
                    double_talk: false,
                    no_user_speech: !awaiting_user && user.is_none(),
                    after_discontinuity: self.pending_discontinuity,
                },
            },
        );
        self.pending_discontinuity = false;
        self.group = Some(
            BotGroup {
                onset_ns,
                last_end_ns: None,
                open_since_ns: Some(onset_ns),
                turn_index: index,
                closed_blocks: 0,
                awaiting_user,
                fallback_user: user,
                prev_end_ns,
            },
        );
    }

    /// Makes the response before the current one the current one again.
    fn restore_displaced(&mut self, turns: &mut Vec<TurnRecord>)
        ensures
            final(self)@ == (TrackerState {
                group: match old(self)@.displaced {
                    Some(d) => Some(d.group),
                    None => None,
                },
                displaced: None,
                ..old(self)@
            }),
            final(turns)@ == match old(self)@.displaced {
                Some(d) if d.turn is Some => with_turn(
                    old(turns)@,
                    d.group.turn_index,
                    d.turn->0,
                ),
                _ => old(turns)@,
            },
    {
        self.group = None;
        if let Some(d) = self.displaced {
            self.group = Some(d.group);
            let idx: usize = d.group.turn_index;
            if let Some(turn) = d.turn {
                if idx < turns.len() {
                    turns[idx] = turn;
                }
            }
        }
        self.displaced = None;
    }

    fn find_utterance(&self, onset_ns: u64, after_ns: u64) -> (user: Option<UserBlock>)
        ensures
            user == latest_utterance(self@.user_blocks, onset_ns, after_ns),
    {
        let mut i: usize = self.user_blocks.len();
        assert(self.user_blocks@.take(i as int) =~= self.user_blocks@);
        while i > 0
            invariant
                i <= self.user_blocks@.len(),
                latest_utterance(self.user_blocks@, onset_ns, after_ns) == latest_utterance(
                    self.user_blocks@.take(i as int),
                    onset_ns,
                    after_ns,
                ),
            decreases i,
        {
            assert(self.user_blocks@.take(i as int).drop_last() =~= self.user_blocks@.take(i - 1));
            let b = self.user_blocks[i - 1];
            if b.end_ns <= onset_ns && b.end_ns > after_ns {
                return Some(b);
            }
            i = i - 1;
        }
        None
    }
}

} // verus!
