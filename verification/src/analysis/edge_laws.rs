//! What each edge of activity leaves behind, in full: every record and every
//! thing remembered, whether it changes or stays.

use vstd::prelude::*;
use crate::analysis::pairing_laws::{lemma_latest_is, lemma_none_is_latest, previous_onset};
use crate::analysis::segmenter::SegEvent;
use crate::analysis::turns::{
    scene_after, BotGroup, Displaced, InterruptionRecord, OpenUser, Scene, TurnRecord, UserBlock,
};
use crate::millis::Millis;

verus! {

/// Two turns of the same response: the same place, onset, end and standing.
pub open spec fn same_response(after: TurnRecord, before: TurnRecord) -> bool {
    &&& after.index == before.index
    &&& after.bot_onset_ns == before.bot_onset_ns
    &&& after.bot_group_end_ns == before.bot_group_end_ns
    &&& after.provisional == before.provisional
    &&& after.flags.after_discontinuity == before.flags.after_discontinuity
}

/// The turn of response `g` answers the utterance: it holds the utterance's
/// times, the gap from its end to the onset, the gap to its start from the end of
/// the response before, if that is earlier, and whether it barged in.
pub open spec fn answers(turn: TurnRecord, g: BotGroup, b: UserBlock) -> bool {
    &&& turn.user_start_ns == Some(b.start_ns)
    &&& turn.user_end_ns == Some(b.end_ns)
    &&& turn.latency_ms is Some
    &&& b.end_ns <= g.onset_ns ==> b.end_ns + turn.latency_ms->0.ns == g.onset_ns
    &&& g.prev_end_ns is Some && g.prev_end_ns->0 < b.start_ns ==> turn.user_response_ms is Some
        && g.prev_end_ns->0 + turn.user_response_ms->0.ns == b.start_ns
    &&& g.prev_end_ns is None || b.start_ns <= g.prev_end_ns->0 ==> turn.user_response_ms is None
    &&& turn.flags.barge_in == b.during_bot
    &&& !turn.flags.no_user_speech
}

/// The turn still holds what it held of its utterance.
pub open spec fn same_utterance(after: TurnRecord, before: TurnRecord) -> bool {
    &&& after.user_start_ns == before.user_start_ns
    &&& after.user_end_ns == before.user_end_ns
    &&& after.latency_ms == before.latency_ms
    &&& after.user_response_ms == before.user_response_ms
    &&& after.flags.barge_in == before.flags.barge_in
    &&& after.flags.no_user_speech == before.flags.no_user_speech
}

/// The pairing of a turn that waited for the mic is done without it: the turn
/// answers the last utterance before the onset, or none.
pub open spec fn falls_back(after: TurnRecord, before: TurnRecord, g: BotGroup) -> bool {
    &&& g.fallback_user is Some ==> answers(after, g, g.fallback_user->0)
    &&& g.fallback_user is None ==> {
        &&& after.flags.no_user_speech
        &&& after.user_response_ms is None
        &&& after.user_start_ns == before.user_start_ns
        &&& after.user_end_ns == before.user_end_ns
        &&& after.latency_ms == before.latency_ms
        &&& after.flags.barge_in == before.flags.barge_in
    }
}

/// The pairing of a turn that waited for the mic is done with the utterance
/// `b`: one that ended by the onset is answered; of one that reaches past it, a
/// quarter of a second or more is talked over and leaves the pairing open for
/// good, and less is ignored.
pub open spec fn done_waiting(
    after: TurnRecord,
    before: TurnRecord,
    g: BotGroup,
    b: UserBlock,
) -> bool {
    let long = b.end_ns - b.start_ns >= 250_000_000;
    &&& same_response(after, before)
    &&& b.end_ns <= g.onset_ns ==> answers(after, g, b)
    &&& b.end_ns > g.onset_ns && long ==> same_utterance(after, before)
    &&& b.end_ns > g.onset_ns && !long ==> falls_back(after, before, g)
}

/// A response once the mic block it may have waited for is over.
pub open spec fn no_longer_waits(after: BotGroup, before: BotGroup) -> bool {
    after == BotGroup { awaiting_user: false, ..before }
}

/// Mic sound begins: nothing but the utterance and its barge-in is new.
pub proof fn law_mic_open_in_full(s: Scene, t_ns: u64, merge_gap_ms: u64)
    requires
        s.interruptions.len() < usize::MAX,
    ensures
        ({
            let after = scene_after(s, 0, SegEvent::Open { t_ns }, merge_gap_ms);
            let over = s.tracker.group is Some && s.tracker.group->0.open_since_ns is Some;
            let records = over && s.tracker.pending_interruption is None;
            &&& after.turns == s.turns
            &&& after.tracker.user_blocks == s.tracker.user_blocks
            &&& after.tracker.group == s.tracker.group
            &&& after.tracker.displaced == s.tracker.displaced
            &&& after.tracker.pending_discontinuity == s.tracker.pending_discontinuity
            &&& after.tracker.user_open == Some(
                OpenUser {
                    start_ns: t_ns,
                    during_bot: over,
                    over_bot: over,
                    interruption_idx: if records {
                        Some(s.interruptions.len() as usize)
                    } else {
                        None
                    },
                },
            )
            &&& records ==> after.interruptions == s.interruptions.push(
                InterruptionRecord { mic_open_ns: t_ns, sys_stop_ns: None, stop_ms: None },
            ) && after.tracker.pending_interruption == Some(s.interruptions.len() as usize)
            &&& !records ==> after.interruptions == s.interruptions
                && after.tracker.pending_interruption == s.tracker.pending_interruption
        }),
{
}

/// Mic sound ends: what becomes of the barge-in in flight, of the responses, and
/// of what is remembered.
pub proof fn law_mic_close_leaves(s: Scene, open: OpenUser, t_ns: u64, merge_gap_ms: u64)
    requires
        s.tracker.user_open == Some(open),
    ensures
        ({
            let after = scene_after(s, 0, SegEvent::Close { t_ns }, merge_gap_ms);
            let blip = t_ns - open.start_ns < 250_000_000;
            let taken_back = blip && open.interruption_idx is Some
                && s.tracker.pending_interruption == open.interruption_idx;
            let playing = s.tracker.group is Some && s.tracker.group->0.open_since_ns is Some;
            &&& after.tracker.user_open is None
            &&& after.tracker.user_blocks == s.tracker.user_blocks.push(
                UserBlock {
                    start_ns: open.start_ns,
                    end_ns: t_ns,
                    during_bot: open.during_bot && !(playing && blip),
                },
            )
            &&& after.tracker.pending_discontinuity == s.tracker.pending_discontinuity
            &&& s.tracker.group is None ==> after.tracker.group is None
            &&& s.tracker.group is Some ==> after.tracker.group is Some && no_longer_waits(
                after.tracker.group->0,
                s.tracker.group->0,
            )
            &&& s.tracker.displaced is None ==> after.tracker.displaced is None
            &&& s.tracker.displaced is Some ==> after.tracker.displaced is Some && no_longer_waits(
                after.tracker.displaced->0.group,
                s.tracker.displaced->0.group,
            )
            &&& taken_back ==> after.tracker.pending_interruption is None
            &&& taken_back && open.interruption_idx->0 + 1 == s.interruptions.len()
                ==> after.interruptions == s.interruptions.drop_last()
            &&& !taken_back ==> after.interruptions == s.interruptions
                && after.tracker.pending_interruption == s.tracker.pending_interruption
        }),
{
}

/// Mic sound ends: a turn that waited for it is paired, or not; every other turn
/// stays. Sound under the response is double talk.
pub proof fn law_mic_close_pairs(
    s: Scene,
    g: BotGroup,
    open: OpenUser,
    t_ns: u64,
    merge_gap_ms: u64,
    k: int,
)
    requires
        s.tracker.group == Some(g),
        s.tracker.user_open == Some(open),
        g.turn_index < s.turns.len(),
        0 <= k < s.turns.len(),
    ensures
        ({
            let after = scene_after(s, 0, SegEvent::Close { t_ns }, merge_gap_ms);
            let block = after.tracker.user_blocks.last();
            let was = s.turns[k];
            let is = after.turns[k];
            let long = t_ns - open.start_ns >= 250_000_000;
            let overlapping = g.open_since_ns is Some && long && t_ns >= g.onset_ns && (
            open.over_bot || t_ns > g.open_since_ns->0);
            &&& after.turns.len() == s.turns.len()
            &&& k != g.turn_index ==> is == was
            &&& k == g.turn_index ==> is.flags.double_talk == (was.flags.double_talk || overlapping
                || (g.awaiting_user && long && t_ns > g.onset_ns))
            &&& k == g.turn_index && g.awaiting_user ==> done_waiting(is, was, g, block)
            &&& k == g.turn_index && !g.awaiting_user ==> same_response(is, was) && same_utterance(
                is,
                was,
            )
        }),
{
}

/// A displaced response that waited for the mic is paired by the same rule, in
/// case it is the current one again.
pub proof fn law_mic_close_pairs_the_displaced(
    s: Scene,
    d: Displaced,
    open: OpenUser,
    t_ns: u64,
    merge_gap_ms: u64,
)
    requires
        s.tracker.displaced == Some(d),
        s.tracker.user_open == Some(open),
    ensures
        ({
            let after = scene_after(s, 0, SegEvent::Close { t_ns }, merge_gap_ms);
            let block = after.tracker.user_blocks.last();
            let is = after.tracker.displaced->0.turn;
            let long = t_ns - open.start_ns >= 250_000_000;
            &&& after.tracker.displaced is Some
            &&& d.turn is None || !d.group.awaiting_user ==> is == d.turn
            &&& d.turn is Some && d.group.awaiting_user ==> {
                &&& is is Some
                &&& done_waiting(is->0, d.turn->0, d.group, block)
                &&& is->0.flags.double_talk == (d.turn->0.flags.double_talk || (long && t_ns
                    > d.group.onset_ns))
            }
        }),
{
}

/// The mic sound was too short to count: it is forgotten with its barge-in, and
/// what waited for it is paired without it.
pub proof fn law_mic_cancel_in_full(s: Scene, open: OpenUser, merge_gap_ms: u64, k: int)
    requires
        s.tracker.user_open == Some(open),
        s.tracker.group matches Some(g) ==> g.turn_index < s.turns.len(),
        0 <= k < s.turns.len(),
    ensures
        ({
            let after = scene_after(s, 0, SegEvent::Cancel, merge_gap_ms);
            let idx = open.interruption_idx;
            let waited = s.tracker.group is Some && s.tracker.group->0.awaiting_user
                && s.tracker.group->0.turn_index == k;
            &&& after.tracker.user_open is None
            &&& after.tracker.user_blocks == s.tracker.user_blocks
            &&& after.tracker.pending_discontinuity == s.tracker.pending_discontinuity
            &&& idx is Some && idx->0 + 1 == s.interruptions.len() ==> after.interruptions
                == s.interruptions.drop_last()
            &&& idx is None || idx->0 + 1 != s.interruptions.len() ==> after.interruptions
                == s.interruptions
            &&& idx is Some && s.tracker.pending_interruption == idx
                ==> after.tracker.pending_interruption is None
            &&& idx is None || s.tracker.pending_interruption != idx
                ==> after.tracker.pending_interruption == s.tracker.pending_interruption
            &&& s.tracker.group is None ==> after.tracker.group is None
            &&& s.tracker.group is Some ==> after.tracker.group is Some && no_longer_waits(
                after.tracker.group->0,
                s.tracker.group->0,
            )
            &&& after.turns.len() == s.turns.len()
            &&& !waited ==> after.turns[k] == s.turns[k]
            &&& waited ==> {
                &&& same_response(after.turns[k], s.turns[k])
                &&& falls_back(after.turns[k], s.turns[k], s.tracker.group->0)
                &&& after.turns[k].flags.double_talk == s.turns[k].flags.double_talk
            }
            &&& s.tracker.displaced is None ==> after.tracker.displaced is None
            &&& s.tracker.displaced is Some ==> {
                let d = s.tracker.displaced->0;
                let is = after.tracker.displaced->0;
                &&& after.tracker.displaced is Some
                &&& no_longer_waits(is.group, d.group)
                &&& d.turn is None || !d.group.awaiting_user ==> is.turn == d.turn
                &&& d.turn is Some && d.group.awaiting_user ==> is.turn is Some && same_response(
                    is.turn->0,
                    d.turn->0,
                ) && falls_back(is.turn->0, d.turn->0, d.group) && is.turn->0.flags.double_talk
                    == d.turn->0.flags.double_talk
            }
        }),
{
}

/// Bot sound that follows the response's last sound by less than the merge gap
/// continues it, and nothing else changes; the response's onset counts as its
/// last sound while no block of it has ended.
pub proof fn law_bot_sound_continues(s: Scene, g: BotGroup, t_ns: u64, merge_gap_ms: u64)
    requires
        s.tracker.group == Some(g),
        g.open_since_ns is None,
        merge_gap_ms > 0,
        g.last_end_ns is Some ==> t_ns - g.last_end_ns->0 < merge_gap_ms * 1_000_000,
        g.last_end_ns is None ==> t_ns - g.onset_ns < merge_gap_ms * 1_000_000,
    ensures
        ({
            let after = scene_after(s, 1, SegEvent::Open { t_ns }, merge_gap_ms);
            &&& after.turns == s.turns
            &&& after.interruptions == s.interruptions
            &&& after.tracker.group == Some(BotGroup { open_since_ns: Some(t_ns), ..g })
            &&& after.tracker.displaced == s.tracker.displaced
            &&& after.tracker.user_blocks == s.tracker.user_blocks
            &&& after.tracker.user_open == s.tracker.user_open
            &&& after.tracker.pending_discontinuity == s.tracker.pending_discontinuity
            &&& after.tracker.pending_interruption == s.tracker.pending_interruption
        }),
{
}

/// A response may begin: there is none, or its last sound was the merge gap ago.
pub open spec fn may_begin(s: Scene, t_ns: u64, merge_gap_ms: u64) -> bool {
    s.tracker.group matches Some(g) ==> {
        &&& g.open_since_ns is None
        &&& g.last_end_ns is Some ==> merge_gap_ms == 0 || t_ns - g.last_end_ns->0 >= merge_gap_ms
            * 1_000_000
        &&& g.last_end_ns is None ==> merge_gap_ms == 0 || t_ns - g.onset_ns >= merge_gap_ms
            * 1_000_000
    }
}

/// `user` is the latest of the utterances that ended by the onset and after the
/// previous response began, if there is any.
pub open spec fn is_latest(s: Scene, onset_ns: u64, user: Option<UserBlock>) -> bool {
    let blocks = s.tracker.user_blocks;
    match user {
        Some(b) => exists|k: int|
            {
                &&& 0 <= k < blocks.len()
                &&& #[trigger] blocks[k] == b
                &&& previous_onset(s) < b.end_ns <= onset_ns
                &&& forall|j: int|
                    k < j < blocks.len() ==> !(previous_onset(s) < (#[trigger] blocks[j]).end_ns
                        <= onset_ns)
            },
        None => forall|j: int|
            0 <= j < blocks.len() ==> !(previous_onset(s) < (#[trigger] blocks[j]).end_ns
                <= onset_ns),
    }
}

/// A response begins: what it remembers, and what is remembered of the one before
/// it.
pub proof fn law_response_begins(
    s: Scene,
    onset_ns: u64,
    merge_gap_ms: u64,
    user: Option<UserBlock>,
)
    requires
        may_begin(s, onset_ns, merge_gap_ms),
        is_latest(s, onset_ns, user),
        s.turns.len() < usize::MAX,
        s.tracker.group matches Some(g) ==> g.turn_index < s.turns.len(),
    ensures
        ({
            let after = scene_after(s, 1, SegEvent::Open { t_ns: onset_ns }, merge_gap_ms);
            &&& after.interruptions == s.interruptions
            &&& after.tracker.user_blocks == s.tracker.user_blocks
            &&& after.tracker.user_open == s.tracker.user_open
            &&& after.tracker.pending_interruption == s.tracker.pending_interruption
            &&& !after.tracker.pending_discontinuity
            &&& after.tracker.group is Some
            &&& after.tracker.group->0.onset_ns == onset_ns
            &&& after.tracker.group->0.open_since_ns == Some(onset_ns)
            &&& after.tracker.group->0.last_end_ns is None
            &&& after.tracker.group->0.turn_index == s.turns.len()
            &&& after.tracker.group->0.closed_blocks == 0
            &&& after.tracker.group->0.awaiting_user == (s.tracker.user_open is Some)
            &&& after.tracker.group->0.fallback_user == user
            &&& s.tracker.group is None ==> after.tracker.group->0.prev_end_ns is None
                && after.tracker.displaced is None
            &&& s.tracker.group is Some ==> after.tracker.group->0.prev_end_ns
                == s.tracker.group->0.last_end_ns && after.tracker.displaced == Some(
                Displaced {
                    group: s.tracker.group->0,
                    turn: Some(s.turns[s.tracker.group->0.turn_index as int]),
                },
            )
        }),
{
    lemma_latest(s, onset_ns, user);
}

proof fn lemma_latest(s: Scene, onset_ns: u64, user: Option<UserBlock>)
    requires
        is_latest(s, onset_ns, user),
    ensures
        crate::analysis::turns::latest_utterance(
            s.tracker.user_blocks,
            onset_ns,
            previous_onset(s),
        ) == user,
{
    let blocks = s.tracker.user_blocks;
    match user {
        Some(b) => {
            let k = choose|k: int|
                {
                    &&& 0 <= k < blocks.len()
                    &&& #[trigger] blocks[k] == b
                    &&& previous_onset(s) < b.end_ns <= onset_ns
                    &&& forall|j: int|
                        k < j < blocks.len() ==> !(previous_onset(s) < (
                        #[trigger] blocks[j]).end_ns <= onset_ns)
                };
            lemma_latest_is(blocks, onset_ns, previous_onset(s), k);
        },
        None => {
            lemma_none_is_latest(blocks, onset_ns, previous_onset(s));
        },
    }
}

/// A response begins: exactly one turn is added, behind the others, and of the
/// others at most the one that still waited for the mic is marked as talked over.
pub proof fn law_response_adds_a_turn(
    s: Scene,
    onset_ns: u64,
    merge_gap_ms: u64,
    user: Option<UserBlock>,
    k: int,
)
    requires
        may_begin(s, onset_ns, merge_gap_ms),
        is_latest(s, onset_ns, user),
        s.turns.len() < usize::MAX,
        s.tracker.group matches Some(g) ==> g.turn_index < s.turns.len(),
        0 <= k <= s.turns.len(),
    ensures
        ({
            let after = scene_after(s, 1, SegEvent::Open { t_ns: onset_ns }, merge_gap_ms);
            let n = s.turns.len() as int;
            let turn = after.turns[n];
            let waits = s.tracker.user_open is Some;
            let prev_end = if s.tracker.group is Some {
                s.tracker.group->0.last_end_ns
            } else {
                None
            };
            let talked_over = waits && s.tracker.group is Some
                && s.tracker.group->0.awaiting_user && s.tracker.group->0.turn_index == k;
            &&& after.turns.len() == n + 1
            &&& k < n && !talked_over ==> after.turns[k] == s.turns[k]
            &&& k < n && talked_over ==> after.turns[k].flags.double_talk && same_response(
                after.turns[k],
                s.turns[k],
            ) && same_utterance(after.turns[k], s.turns[k])
            &&& turn.index == n
            &&& turn.bot_onset_ns == onset_ns
            &&& turn.bot_group_end_ns is None
            &&& turn.provisional
            &&& turn.flags.after_discontinuity == s.tracker.pending_discontinuity
            &&& !turn.flags.double_talk
            &&& user is Some && !waits ==> answers(turn, after.tracker.group->0, user->0)
            &&& user is None && !waits ==> {
                &&& turn.flags.no_user_speech && !turn.flags.barge_in
                &&& turn.latency_ms is None && turn.user_response_ms is None
                &&& turn.user_start_ns is None && turn.user_end_ns is None
            }
            &&& waits ==> !turn.flags.no_user_speech && !turn.flags.barge_in
                && turn.latency_ms is None
            &&& waits && user is Some ==> turn.user_start_ns == Some(user->0.start_ns)
                && turn.user_end_ns == Some(user->0.end_ns)
            &&& waits && user is None ==> turn.user_start_ns is None && turn.user_end_ns is None
            &&& waits ==> {
                let start = if user is Some {
                    user->0.start_ns
                } else {
                    s.tracker.user_open->0.start_ns
                };
                &&& prev_end is Some && prev_end->0 < start ==> turn.user_response_ms == Some(
                    Millis { ns: (start - prev_end->0) as u64 },
                )
                &&& prev_end is None || start <= prev_end->0 ==> turn.user_response_ms is None
            }
        }),
{
    lemma_latest(s, onset_ns, user);
}

/// Bot sound ends: its response has one block more and lasts until then, and is
/// there to stay. Mic sound that began no earlier did not barge in.
pub proof fn law_bot_close_leaves(s: Scene, t_ns: u64, merge_gap_ms: u64)
    ensures
        ({
            let after = scene_after(s, 1, SegEvent::Close { t_ns }, merge_gap_ms);
            let open = s.tracker.user_open;
            &&& after.turns.len() == s.turns.len()
            &&& after.tracker.displaced is None
            &&& after.tracker.pending_interruption is None
            &&& after.tracker.pending_discontinuity == s.tracker.pending_discontinuity
            &&& after.tracker.user_blocks == s.tracker.user_blocks
            &&& s.tracker.group is None ==> after.tracker.group is None && after.turns == s.turns
            &&& s.tracker.group is Some ==> {
                let g = s.tracker.group->0;
                let is = after.tracker.group->0;
                &&& after.tracker.group is Some
                &&& is.onset_ns == g.onset_ns
                &&& is.last_end_ns == Some(t_ns)
                &&& is.open_since_ns is None
                &&& is.turn_index == g.turn_index
                &&& g.closed_blocks < usize::MAX ==> is.closed_blocks == g.closed_blocks + 1
                &&& is.awaiting_user == g.awaiting_user
                &&& is.fallback_user == g.fallback_user
                &&& is.prev_end_ns == g.prev_end_ns
            }
            &&& open is None ==> after.tracker.user_open is None
            &&& open is Some && open->0.start_ns < t_ns ==> after.tracker.user_open == open
            &&& open is Some && open->0.start_ns >= t_ns ==> after.tracker.user_open == Some(
                OpenUser { during_bot: false, ..open->0 },
            )
        }),
{
}

/// Bot sound ends: the barge-in in flight, if there is one, is measured up to
/// then, or never was one where the bot had already stopped. No other changes.
pub proof fn law_bot_close_settles_the_barge_in(s: Scene, t_ns: u64, merge_gap_ms: u64, i: int)
    requires
        s.tracker.pending_interruption matches Some(idx) ==> idx < s.interruptions.len(),
        0 <= i < s.interruptions.len(),
    ensures
        ({
            let after = scene_after(s, 1, SegEvent::Close { t_ns }, merge_gap_ms).interruptions;
            let idx = s.tracker.pending_interruption;
            let began = s.interruptions[idx->0 as int].mic_open_ns;
            let n = s.interruptions.len();
            &&& idx is None ==> after == s.interruptions
            &&& idx is Some && t_ns > began ==> {
                &&& after.len() == n
                &&& i != idx->0 ==> after[i] == s.interruptions[i]
                &&& after[idx->0 as int].mic_open_ns == began
                &&& after[idx->0 as int].sys_stop_ns == Some(t_ns)
                &&& after[idx->0 as int].stop_ms is Some
                &&& began + after[idx->0 as int].stop_ms->0.ns == t_ns
            }
            &&& idx is Some && t_ns <= began && idx->0 + 1 == n ==> after
                == s.interruptions.drop_last()
        }),
{
}

/// The bot sound was too short to count, but its response has other blocks: the
/// response is as it was before the sound.
pub proof fn law_bot_cancel_within_a_response(s: Scene, g: BotGroup, merge_gap_ms: u64)
    requires
        s.tracker.group == Some(g),
        g.closed_blocks > 0 || g.open_since_ns is None,
    ensures
        ({
            let after = scene_after(s, 1, SegEvent::Cancel, merge_gap_ms);
            &&& after.turns == s.turns
            &&& after.tracker.group == Some(BotGroup { open_since_ns: None, ..g })
            &&& after.tracker.displaced == s.tracker.displaced
            &&& after.tracker.pending_discontinuity == s.tracker.pending_discontinuity
        }),
{
}

/// The bot sound was too short to count and all there was of its response: its
/// turn is taken back with the mark of a device change, and the response before
/// it is the current one again, with its turn.
pub proof fn law_bot_cancel_takes_the_response_back(s: Scene, g: BotGroup, merge_gap_ms: u64)
    requires
        s.tracker.group == Some(g),
        g.closed_blocks == 0,
        g.open_since_ns is Some,
        g.turn_index + 1 == s.turns.len(),
        s.turns.last().provisional,
        s.tracker.displaced matches Some(d) ==> d.turn is Some && d.group.turn_index
            < g.turn_index,
    ensures
        ({
            let after = scene_after(s, 1, SegEvent::Cancel, merge_gap_ms);
            let d = s.tracker.displaced;
            &&& after.tracker.displaced is None
            &&& after.tracker.pending_discontinuity == (s.tracker.pending_discontinuity
                || s.turns.last().flags.after_discontinuity)
            &&& d is None ==> after.tracker.group is None && after.turns == s.turns.drop_last()
            &&& d is Some ==> after.tracker.group == Some(d->0.group) && after.turns
                == s.turns.drop_last().update(d->0.group.turn_index as int, d->0.turn->0)
        }),
{
}

/// A barge-in over bot sound that was too short to count never was one.
pub proof fn law_bot_cancel_drops_the_barge_in(s: Scene, merge_gap_ms: u64)
    ensures
        ({
            let after = scene_after(s, 1, SegEvent::Cancel, merge_gap_ms);
            let idx = s.tracker.pending_interruption;
            let open = s.tracker.user_open;
            &&& after.tracker.pending_interruption is None
            &&& after.tracker.user_blocks == s.tracker.user_blocks
            &&& idx is None ==> after.interruptions == s.interruptions && after.tracker.user_open
                == open
            &&& idx is Some && idx->0 + 1 == s.interruptions.len() ==> after.interruptions
                == s.interruptions.drop_last()
            &&& idx is Some && open is None ==> after.tracker.user_open is None
            &&& idx is Some && open is Some ==> after.tracker.user_open == Some(
                OpenUser { during_bot: false, ..open->0 },
            )
            &&& s.tracker.group is None ==> after.tracker.group is None && after.turns == s.turns
        }),
{
}

} // verus!
