//! What each edge of activity does to the turns and interruptions, in terms of
//! times alone.

use vstd::prelude::*;
use crate::analysis::segmenter::SegEvent;
use crate::analysis::turns::{
    flag_names, latest_utterance, scene_after, BotGroup, OpenUser, Scene, TurnFlags, UserBlock,
};
use crate::audio::{LANE_MIC, LANE_SYS};
use crate::millis::Millis;

verus! {

/// Bot sound after a pause: less than the merge gap since the response's last
/// sound, it continues the response, however many blocks that already has, and
/// no turn changes; otherwise it starts exactly one more turn.
pub proof fn law_pause_decides_on_a_new_turn(
    s: Scene,
    g: BotGroup,
    end_ns: u64,
    t_ns: u64,
    merge_gap_ms: u64,
)
    requires
        s.tracker.group == Some(g),
        g.open_since_ns is None,
        g.last_end_ns == Some(end_ns),
        end_ns <= t_ns,
    ensures
        ({
            let after = scene_after(s, LANE_SYS, SegEvent::Open { t_ns }, merge_gap_ms);
            &&& t_ns - end_ns < merge_gap_ms * 1_000_000 ==> {
                &&& after.turns == s.turns
                &&& after.tracker.group is Some
                &&& after.tracker.group->0.turn_index == g.turn_index
                &&& after.tracker.group->0.onset_ns == g.onset_ns
                &&& after.tracker.group->0.open_since_ns == Some(t_ns)
            }
            &&& t_ns - end_ns >= merge_gap_ms * 1_000_000 ==> {
                &&& after.turns.len() == s.turns.len() + 1
                &&& after.turns.last().bot_onset_ns == t_ns
            }
        }),
{
}

/// The end of a bot block never adds or removes a turn: the response's turn now
/// reaches to it and is confirmed, and nothing else about any turn changes.
pub proof fn law_bot_stop_confirms_the_turn(
    s: Scene,
    g: BotGroup,
    t_ns: u64,
    merge_gap_ms: u64,
    k: int,
)
    requires
        s.tracker.group == Some(g),
        g.turn_index < s.turns.len(),
        0 <= k < s.turns.len(),
    ensures
        ({
            let after = scene_after(s, LANE_SYS, SegEvent::Close { t_ns }, merge_gap_ms);
            let old_turn = s.turns[k];
            let turn = after.turns[k];
            &&& after.turns.len() == s.turns.len()
            &&& k != g.turn_index ==> turn == old_turn
            &&& k == g.turn_index ==> {
                &&& !turn.provisional
                &&& turn.bot_group_end_ns == Some(t_ns)
                &&& turn.index == old_turn.index
                &&& turn.bot_onset_ns == old_turn.bot_onset_ns
                &&& turn.user_start_ns == old_turn.user_start_ns
                &&& turn.user_end_ns == old_turn.user_end_ns
                &&& turn.latency_ms == old_turn.latency_ms
                &&& turn.user_response_ms == old_turn.user_response_ms
                &&& turn.flags == old_turn.flags
            }
            &&& after.tracker.group is Some
            &&& after.tracker.group->0.last_end_ns == Some(t_ns)
            &&& after.tracker.group->0.open_since_ns is None
            &&& after.tracker.user_blocks == s.tracker.user_blocks
            &&& after.tracker.pending_interruption is None
        }),
{
}

/// A whole response of several sentences, one after the other with pauses below
/// the merge gap, is one turn: it begins with the first sound and ends with the
/// last.
pub proof fn law_sentences_are_one_response(
    s: Scene,
    g: BotGroup,
    end_ns: u64,
    sentences: Seq<(u64, u64)>,
    merge_gap_ms: u64,
)
    requires
        s.tracker.group == Some(g),
        g.open_since_ns is None,
        g.last_end_ns == Some(end_ns),
        g.turn_index < s.turns.len(),
        s.turns[g.turn_index as int].bot_group_end_ns == Some(end_ns),
        forall|i: int|
            0 <= i < sentences.len() ==> {
                let before = if i == 0 {
                    end_ns
                } else {
                    sentences[i - 1].1
                };
                before <= (#[trigger] sentences[i]).0 && sentences[i].0 - before < merge_gap_ms
                    * 1_000_000
            },
    ensures
        ({
            let after = spoken(s, sentences, merge_gap_ms);
            &&& after.turns.len() == s.turns.len()
            &&& after.turns[g.turn_index as int].bot_onset_ns
                == s.turns[g.turn_index as int].bot_onset_ns
            &&& after.turns[g.turn_index as int].latency_ms
                == s.turns[g.turn_index as int].latency_ms
            &&& after.turns[g.turn_index as int].flags == s.turns[g.turn_index as int].flags
            &&& after.turns[g.turn_index as int].bot_group_end_ns == Some(
                if sentences.len() == 0 {
                    end_ns
                } else {
                    sentences.last().1
                },
            )
        }),
{
    lemma_sentences(s, g, end_ns, sentences, merge_gap_ms);
}

/// The scene after bot sentences, each from its first number to its second.
pub open spec fn spoken(s: Scene, sentences: Seq<(u64, u64)>, merge_gap_ms: u64) -> Scene
    decreases sentences.len(),
{
    if sentences.len() == 0 {
        s
    } else {
        let before = spoken(s, sentences.drop_last(), merge_gap_ms);
        let (open_ns, close_ns) = sentences.last();
        let opened = scene_after(before, LANE_SYS, SegEvent::Open { t_ns: open_ns }, merge_gap_ms);
        scene_after(opened, LANE_SYS, SegEvent::Close { t_ns: close_ns }, merge_gap_ms)
    }
}

proof fn lemma_sentences(
    s: Scene,
    g: BotGroup,
    end_ns: u64,
    sentences: Seq<(u64, u64)>,
    merge_gap_ms: u64,
)
    requires
        s.tracker.group == Some(g),
        g.open_since_ns is None,
        g.last_end_ns == Some(end_ns),
        g.turn_index < s.turns.len(),
        s.turns[g.turn_index as int].bot_group_end_ns == Some(end_ns),
        forall|i: int|
            0 <= i < sentences.len() ==> {
                let before = if i == 0 {
                    end_ns
                } else {
                    sentences[i - 1].1
                };
                before <= (#[trigger] sentences[i]).0 && sentences[i].0 - before < merge_gap_ms
                    * 1_000_000
            },
    ensures
        ({
            let after = spoken(s, sentences, merge_gap_ms);
            let last_ns = if sentences.len() == 0 {
                end_ns
            } else {
                sentences.last().1
            };
            let k = g.turn_index as int;
            &&& after.tracker.group is Some
            &&& after.tracker.group->0.turn_index == g.turn_index
            &&& after.tracker.group->0.open_since_ns is None
            &&& after.tracker.group->0.last_end_ns == Some(last_ns)
            &&& after.turns.len() == s.turns.len()
            &&& after.turns[k].bot_onset_ns == s.turns[k].bot_onset_ns
            &&& after.turns[k].latency_ms == s.turns[k].latency_ms
            &&& after.turns[k].flags == s.turns[k].flags
            &&& after.turns[k].bot_group_end_ns == Some(last_ns)
        }),
    decreases sentences.len(),
{
    if sentences.len() > 0 {
        let rest = sentences.drop_last();
        assert forall|i: int| 0 <= i < rest.len() implies {
            let before = if i == 0 {
                end_ns
            } else {
                rest[i - 1].1
            };
            before <= (#[trigger] rest[i]).0 && rest[i].0 - before < merge_gap_ms * 1_000_000
        } by {
            assert(rest[i] == sentences[i]);
        }
        lemma_sentences(s, g, end_ns, rest, merge_gap_ms);
        let before = spoken(s, rest, merge_gap_ms);
        let (open_ns, close_ns) = sentences.last();
        assert(sentences[sentences.len() - 1] == sentences.last());
        let at = before.tracker.group->0;
        law_pause_decides_on_a_new_turn(
            before,
            at,
            at.last_end_ns->0,
            open_ns,
            merge_gap_ms,
        );
        let opened = scene_after(before, LANE_SYS, SegEvent::Open { t_ns: open_ns }, merge_gap_ms);
        law_bot_stop_confirms_the_turn(
            opened,
            opened.tracker.group->0,
            close_ns,
            merge_gap_ms,
            g.turn_index as int,
        );
    }
}

/// When a response may start: there is none yet, or the last one has been silent
/// for at least the merge gap.
pub open spec fn ready_for_response(s: Scene, onset_ns: u64, merge_gap_ms: u64) -> bool {
    s.tracker.group matches Some(g) ==> {
        &&& g.open_since_ns is None
        &&& g.last_end_ns matches Some(end) && end <= onset_ns && onset_ns - end >= merge_gap_ms
            * 1_000_000
    }
}

/// When the response before began; nothing counts as answered before that.
pub open spec fn previous_onset(s: Scene) -> u64 {
    match s.tracker.group {
        Some(g) => g.onset_ns,
        None => 0,
    }
}

/// The last of the utterances in the range is the latest.
pub proof fn lemma_latest_is(blocks: Seq<UserBlock>, onset_ns: u64, after_ns: u64, k: int)
    requires
        0 <= k < blocks.len(),
        after_ns < blocks[k].end_ns <= onset_ns,
        forall|j: int|
            k < j < blocks.len() ==> !(after_ns < (#[trigger] blocks[j]).end_ns <= onset_ns),
    ensures
        latest_utterance(blocks, onset_ns, after_ns) == Some(blocks[k]),
    decreases blocks.len(),
{
    let n = blocks.len() - 1;
    assert(blocks.last() == blocks[n]);
    if k < n {
        let rest = blocks.drop_last();
        assert forall|j: int| k < j < rest.len() implies !(after_ns < (#[trigger] rest[j]).end_ns
            <= onset_ns) by {
            assert(rest[j] == blocks[j]);
        }
        lemma_latest_is(rest, onset_ns, after_ns, k);
    }
}

/// A response answers the latest utterance that ended by its onset and after the
/// previous response began: the turn carries that utterance's times, the exact
/// gap to it, and its barge-in, and no flag that it did not earn. All earlier
/// turns stay as they are.
pub proof fn law_response_answers_latest_utterance(
    s: Scene,
    onset_ns: u64,
    merge_gap_ms: u64,
    k: int,
)
    requires
        ready_for_response(s, onset_ns, merge_gap_ms),
        s.turns.len() < usize::MAX,
        s.tracker.user_open is None,
        0 <= k < s.tracker.user_blocks.len(),
        previous_onset(s) < s.tracker.user_blocks[k].end_ns <= onset_ns,
        forall|j: int|
            k < j < s.tracker.user_blocks.len() ==> !(previous_onset(s) < (
            #[trigger] s.tracker.user_blocks[j]).end_ns <= onset_ns),
    ensures
        ({
            let after = scene_after(s, LANE_SYS, SegEvent::Open { t_ns: onset_ns }, merge_gap_ms);
            let b = s.tracker.user_blocks[k];
            let turn = after.turns.last();
            &&& after.turns.len() == s.turns.len() + 1
            &&& after.turns.drop_last() == s.turns
            &&& turn.index == s.turns.len()
            &&& turn.bot_onset_ns == onset_ns
            &&& turn.bot_group_end_ns is None
            &&& turn.provisional
            &&& turn.user_start_ns == Some(b.start_ns)
            &&& turn.user_end_ns == Some(b.end_ns)
            &&& turn.latency_ms == Some(Millis { ns: (onset_ns - b.end_ns) as u64 })
            &&& turn.flags.barge_in == b.during_bot
            &&& !turn.flags.double_talk
            &&& !turn.flags.no_user_speech
            &&& turn.flags.after_discontinuity == s.tracker.pending_discontinuity
            &&& !after.tracker.pending_discontinuity
            &&& (s.tracker.group matches Some(g) && b.start_ns > g.last_end_ns->0)
                ==> turn.user_response_ms == Some(
                Millis { ns: (b.start_ns - s.tracker.group->0.last_end_ns->0) as u64 },
            )
            &&& (s.tracker.group is None || b.start_ns <= s.tracker.group->0.last_end_ns->0)
                ==> turn.user_response_ms is None
        }),
{
    lemma_latest_is(s.tracker.user_blocks, onset_ns, previous_onset(s), k);
    let after = scene_after(s, LANE_SYS, SegEvent::Open { t_ns: onset_ns }, merge_gap_ms);
    assert(after.turns.drop_last() =~= s.turns);
}

/// Where no utterance is in the range there is no latest.
pub proof fn lemma_none_is_latest(blocks: Seq<UserBlock>, onset_ns: u64, after_ns: u64)
    requires
        forall|j: int|
            0 <= j < blocks.len() ==> !(after_ns < (#[trigger] blocks[j]).end_ns <= onset_ns),
    ensures
        latest_utterance(blocks, onset_ns, after_ns) is None,
    decreases blocks.len(),
{
    if blocks.len() > 0 {
        let rest = blocks.drop_last();
        assert(blocks.last() == blocks[blocks.len() - 1]);
        assert forall|j: int| 0 <= j < rest.len() implies !(after_ns < (#[trigger] rest[j]).end_ns
            <= onset_ns) by {
            assert(rest[j] == blocks[j]);
        }
        lemma_none_is_latest(rest, onset_ns, after_ns);
    }
}

/// A response with no utterance to answer is counted and flagged, and carries no
/// utterance, latency or response time.
pub proof fn law_response_to_nothing(s: Scene, onset_ns: u64, merge_gap_ms: u64)
    requires
        ready_for_response(s, onset_ns, merge_gap_ms),
        s.turns.len() < usize::MAX,
        s.tracker.user_open is None,
        forall|j: int|
            0 <= j < s.tracker.user_blocks.len() ==> !(previous_onset(s) < (
            #[trigger] s.tracker.user_blocks[j]).end_ns <= onset_ns),
    ensures
        ({
            let after = scene_after(s, LANE_SYS, SegEvent::Open { t_ns: onset_ns }, merge_gap_ms);
            let turn = after.turns.last();
            &&& after.turns.len() == s.turns.len() + 1
            &&& after.turns.drop_last() == s.turns
            &&& turn.index == s.turns.len()
            &&& turn.flags.no_user_speech
            &&& !turn.flags.barge_in && !turn.flags.double_talk
            &&& turn.user_start_ns is None && turn.user_end_ns is None
            &&& turn.latency_ms is None && turn.user_response_ms is None
        }),
{
    lemma_none_is_latest(s.tracker.user_blocks, onset_ns, previous_onset(s));
    let after = scene_after(s, LANE_SYS, SegEvent::Open { t_ns: onset_ns }, merge_gap_ms);
    assert(after.turns.drop_last() =~= s.turns);
}

/// While a mic block is open at the onset the new turn has no latency and no
/// flag yet. An earlier turn that also waits for that block was talked over.
pub proof fn law_open_mic_defers_the_pairing(
    s: Scene,
    open: OpenUser,
    onset_ns: u64,
    merge_gap_ms: u64,
)
    requires
        ready_for_response(s, onset_ns, merge_gap_ms),
        s.turns.len() < usize::MAX,
        s.tracker.user_open == Some(open),
        s.tracker.group matches Some(g) ==> g.turn_index < s.turns.len(),
    ensures
        ({
            let after = scene_after(s, LANE_SYS, SegEvent::Open { t_ns: onset_ns }, merge_gap_ms);
            let turn = after.turns.last();
            &&& after.turns.len() == s.turns.len() + 1
            &&& turn.latency_ms is None
            &&& !turn.flags.barge_in && !turn.flags.double_talk && !turn.flags.no_user_speech
            &&& after.tracker.group is Some && after.tracker.group->0.awaiting_user
            &&& after.tracker.user_open == Some(open)
            &&& (s.tracker.group matches Some(g) && g.awaiting_user)
                ==> after.turns[s.tracker.group->0.turn_index as int].flags.double_talk
        }),
{
}

/// A short mic blip that straddles the onset makes no difference to the turn: it
/// is paired as if the mic had been silent.
pub proof fn law_blip_over_the_onset_is_ignored(
    s: Scene,
    open_ns: u64,
    onset_ns: u64,
    close_ns: u64,
    merge_gap_ms: u64,
)
    requires
        ready_for_response(s, onset_ns, merge_gap_ms),
        s.turns.len() < usize::MAX,
        s.tracker.user_open is None,
        s.tracker.group matches Some(g) ==> !g.awaiting_user,
        onset_ns < close_ns,
        close_ns - open_ns < 250_000_000,
    ensures
        ({
            let opened = scene_after(s, LANE_MIC, SegEvent::Open { t_ns: open_ns }, merge_gap_ms);
            let started = scene_after(
                opened,
                LANE_SYS,
                SegEvent::Open { t_ns: onset_ns },
                merge_gap_ms,
            );
            let after = scene_after(
                started,
                LANE_MIC,
                SegEvent::Close { t_ns: close_ns },
                merge_gap_ms,
            );
            after.turns == scene_after(
                s,
                LANE_SYS,
                SegEvent::Open { t_ns: onset_ns },
                merge_gap_ms,
            ).turns
        }),
{
    let opened = scene_after(s, LANE_MIC, SegEvent::Open { t_ns: open_ns }, merge_gap_ms);
    let started = scene_after(opened, LANE_SYS, SegEvent::Open { t_ns: onset_ns }, merge_gap_ms);
    let after = scene_after(started, LANE_MIC, SegEvent::Close { t_ns: close_ns }, merge_gap_ms);
    let direct = scene_after(s, LANE_SYS, SegEvent::Open { t_ns: onset_ns }, merge_gap_ms);
    assert(after.turns =~= direct.turns);
}

/// Mic sound begins: over a bot block that is being played it is a barge-in, and
/// recorded from its onset unless one is already in flight; otherwise nothing is
/// recorded. No turn, utterance or response changes.
pub proof fn law_mic_onset(s: Scene, t_ns: u64, merge_gap_ms: u64)
    requires
        s.interruptions.len() < usize::MAX,
    ensures
        ({
            let after = scene_after(s, LANE_MIC, SegEvent::Open { t_ns }, merge_gap_ms);
            let over = s.tracker.group is Some && s.tracker.group->0.open_since_ns is Some;
            let open = after.tracker.user_open->0;
            &&& after.turns == s.turns
            &&& after.tracker.user_blocks == s.tracker.user_blocks
            &&& after.tracker.group == s.tracker.group
            &&& after.tracker.pending_discontinuity == s.tracker.pending_discontinuity
            &&& after.tracker.user_open is Some
            &&& open.start_ns == t_ns && open.during_bot == over && open.over_bot == over
            &&& over && s.tracker.pending_interruption is None ==> {
                &&& after.interruptions.len() == s.interruptions.len() + 1
                &&& after.interruptions.drop_last() == s.interruptions
                &&& after.interruptions.last().mic_open_ns == t_ns
                &&& after.interruptions.last().sys_stop_ns is None
                &&& after.interruptions.last().stop_ms is None
                &&& after.tracker.pending_interruption == Some(s.interruptions.len() as usize)
                &&& open.interruption_idx == Some(s.interruptions.len() as usize)
            }
            &&& !over || s.tracker.pending_interruption is Some ==> {
                &&& after.interruptions == s.interruptions
                &&& after.tracker.pending_interruption == s.tracker.pending_interruption
                &&& open.interruption_idx is None
            }
        }),
{
    let after = scene_after(s, LANE_MIC, SegEvent::Open { t_ns }, merge_gap_ms);
    if after.interruptions.len() == s.interruptions.len() + 1 {
        assert(after.interruptions.drop_last() =~= s.interruptions);
    }
}

/// Mic sound ends: exactly one utterance is remembered, from its onset to its
/// end, as a barge-in if it began as one and either lasted a quarter of a second
/// or the bot has fallen silent.
pub proof fn law_utterance_is_remembered(s: Scene, open: OpenUser, t_ns: u64, merge_gap_ms: u64)
    requires
        s.tracker.user_open == Some(open),
    ensures
        ({
            let after = scene_after(s, LANE_MIC, SegEvent::Close { t_ns }, merge_gap_ms);
            let playing = s.tracker.group is Some && s.tracker.group->0.open_since_ns is Some;
            let block = after.tracker.user_blocks.last();
            &&& after.tracker.user_open is None
            &&& after.tracker.user_blocks.len() == s.tracker.user_blocks.len() + 1
            &&& after.tracker.user_blocks.drop_last() == s.tracker.user_blocks
            &&& block.start_ns == open.start_ns
            &&& block.end_ns == t_ns
            &&& block.during_bot == (open.during_bot && (t_ns - open.start_ns >= 250_000_000
                || !playing))
            &&& after.tracker.pending_discontinuity == s.tracker.pending_discontinuity
            &&& after.turns.len() == s.turns.len()
        }),
{
    let after = scene_after(s, LANE_MIC, SegEvent::Close { t_ns }, merge_gap_ms);
    assert(after.tracker.user_blocks.drop_last() =~= s.tracker.user_blocks);
}

/// A mic edge that no block is open for changes nothing, and so does an edge of
/// a lane that is neither the mic's nor the system's.
pub proof fn law_stray_edges_change_nothing(
    s: Scene,
    t_ns: u64,
    lane: usize,
    event: SegEvent,
    merge_gap_ms: u64,
)
    requires
        lane != 0 && lane != 1,
    ensures
        scene_after(s, lane, event, merge_gap_ms) == s,
        s.tracker.user_open is None ==> scene_after(
            s,
            LANE_MIC,
            SegEvent::Close { t_ns },
            merge_gap_ms,
        ) == s,
        s.tracker.user_open is None ==> scene_after(s, LANE_MIC, SegEvent::Cancel, merge_gap_ms)
            == s,
        s.tracker.group is Some && s.tracker.group->0.open_since_ns is Some ==> scene_after(
            s,
            LANE_SYS,
            SegEvent::Open { t_ns },
            merge_gap_ms,
        ) == s,
{
}

/// A barge-in is measured from the mic onset to the moment the bot stopped,
/// however long the mic sound itself was, as long as it did not end as a blip
/// before. A bot that had stopped by the onset was not interrupted.
pub proof fn law_interruption_is_measured(
    s: Scene,
    open_ns: u64,
    stop_ns: u64,
    merge_gap_ms: u64,
)
    requires
        s.tracker.group is Some && s.tracker.group->0.open_since_ns is Some,
        s.tracker.pending_interruption is None,
        s.interruptions.len() < usize::MAX,
    ensures
        ({
            let opened = scene_after(s, LANE_MIC, SegEvent::Open { t_ns: open_ns }, merge_gap_ms);
            let after = scene_after(
                opened,
                LANE_SYS,
                SegEvent::Close { t_ns: stop_ns },
                merge_gap_ms,
            );
            &&& stop_ns > open_ns ==> {
                &&& after.interruptions.len() == s.interruptions.len() + 1
                &&& after.interruptions.drop_last() == s.interruptions
                &&& after.interruptions.last().mic_open_ns == open_ns
                &&& after.interruptions.last().sys_stop_ns == Some(stop_ns)
                &&& after.interruptions.last().stop_ms == Some(
                    Millis { ns: (stop_ns - open_ns) as u64 },
                )
                &&& after.tracker.user_open is Some && after.tracker.user_open->0.during_bot
            }
            &&& stop_ns <= open_ns ==> {
                &&& after.interruptions == s.interruptions
                &&& after.tracker.user_open is Some && !after.tracker.user_open->0.during_bot
            }
        }),
{
    let opened = scene_after(s, LANE_MIC, SegEvent::Open { t_ns: open_ns }, merge_gap_ms);
    let after = scene_after(opened, LANE_SYS, SegEvent::Close { t_ns: stop_ns }, merge_gap_ms);
    if stop_ns > open_ns {
        assert(after.interruptions.drop_last() =~= s.interruptions);
    } else {
        assert(after.interruptions =~= s.interruptions);
    }
}

/// An utterance that began over bot audio and lasted a quarter of a second is a
/// barge-in, though it ended before the bot stopped: its interruption is
/// measured, and the response that answers it is flagged, with its latency.
pub proof fn law_sustained_barge_in_is_flagged(
    s: Scene,
    g: BotGroup,
    open_ns: u64,
    close_ns: u64,
    stop_ns: u64,
    onset_ns: u64,
    merge_gap_ms: u64,
)
    requires
        s.tracker.group == Some(g),
        g.open_since_ns is Some,
        s.tracker.user_open is None,
        s.tracker.pending_interruption is None,
        s.interruptions.len() < usize::MAX,
        s.turns.len() < usize::MAX,
        !g.awaiting_user,
        close_ns - open_ns >= 250_000_000,
        g.onset_ns < close_ns <= onset_ns,
        open_ns < stop_ns <= onset_ns,
        onset_ns - stop_ns >= merge_gap_ms * 1_000_000,
    ensures
        ({
            let opened = scene_after(s, LANE_MIC, SegEvent::Open { t_ns: open_ns }, merge_gap_ms);
            let closed = scene_after(
                opened,
                LANE_MIC,
                SegEvent::Close { t_ns: close_ns },
                merge_gap_ms,
            );
            let stopped = scene_after(
                closed,
                LANE_SYS,
                SegEvent::Close { t_ns: stop_ns },
                merge_gap_ms,
            );
            let after = scene_after(
                stopped,
                LANE_SYS,
                SegEvent::Open { t_ns: onset_ns },
                merge_gap_ms,
            );
            let turn = after.turns.last();
            let record = after.interruptions.last();
            &&& after.turns.len() == s.turns.len() + 1
            &&& turn.user_start_ns == Some(open_ns)
            &&& turn.user_end_ns == Some(close_ns)
            &&& turn.latency_ms == Some(Millis { ns: (onset_ns - close_ns) as u64 })
            &&& turn.flags.barge_in
            &&& after.interruptions.len() == s.interruptions.len() + 1
            &&& record.mic_open_ns == open_ns
            &&& record.sys_stop_ns == Some(stop_ns)
            &&& record.stop_ms == Some(Millis { ns: (stop_ns - open_ns) as u64 })
        }),
{
    let opened = scene_after(s, LANE_MIC, SegEvent::Open { t_ns: open_ns }, merge_gap_ms);
    let closed = scene_after(opened, LANE_MIC, SegEvent::Close { t_ns: close_ns }, merge_gap_ms);
    let stopped = scene_after(closed, LANE_SYS, SegEvent::Close { t_ns: stop_ns }, merge_gap_ms);
    law_response_answers_latest_utterance(
        stopped,
        onset_ns,
        merge_gap_ms,
        stopped.tracker.user_blocks.len() - 1,
    );
}

/// An utterance that began over bot audio and outlasted it is a barge-in,
/// however short it was.
pub proof fn law_outlasting_barge_in_is_flagged(
    s: Scene,
    g: BotGroup,
    open_ns: u64,
    stop_ns: u64,
    close_ns: u64,
    onset_ns: u64,
    merge_gap_ms: u64,
)
    requires
        s.tracker.group == Some(g),
        g.open_since_ns is Some,
        !g.awaiting_user,
        s.tracker.pending_interruption is None,
        s.interruptions.len() < usize::MAX,
        s.turns.len() < usize::MAX,
        open_ns < stop_ns <= onset_ns,
        g.onset_ns < close_ns <= onset_ns,
        onset_ns - stop_ns >= merge_gap_ms * 1_000_000,
    ensures
        ({
            let opened = scene_after(s, LANE_MIC, SegEvent::Open { t_ns: open_ns }, merge_gap_ms);
            let stopped = scene_after(
                opened,
                LANE_SYS,
                SegEvent::Close { t_ns: stop_ns },
                merge_gap_ms,
            );
            let closed = scene_after(
                stopped,
                LANE_MIC,
                SegEvent::Close { t_ns: close_ns },
                merge_gap_ms,
            );
            let after = scene_after(
                closed,
                LANE_SYS,
                SegEvent::Open { t_ns: onset_ns },
                merge_gap_ms,
            );
            let record = after.interruptions.last();
            &&& after.turns.len() == s.turns.len() + 1
            &&& after.turns.last().flags.barge_in
            &&& after.turns.last().latency_ms == Some(Millis { ns: (onset_ns - close_ns) as u64 })
            &&& after.interruptions.len() == s.interruptions.len() + 1
            &&& record.stop_ms == Some(Millis { ns: (stop_ns - open_ns) as u64 })
        }),
{
    let opened = scene_after(s, LANE_MIC, SegEvent::Open { t_ns: open_ns }, merge_gap_ms);
    let stopped = scene_after(opened, LANE_SYS, SegEvent::Close { t_ns: stop_ns }, merge_gap_ms);
    let closed = scene_after(stopped, LANE_MIC, SegEvent::Close { t_ns: close_ns }, merge_gap_ms);
    law_response_answers_latest_utterance(
        closed,
        onset_ns,
        merge_gap_ms,
        closed.tracker.user_blocks.len() - 1,
    );
}

/// A barge-in whose mic sound proves to be a blip is taken back, even where the
/// bot's stop had already completed it.
pub proof fn law_cancelled_barge_in_is_taken_back(
    s: Scene,
    open_ns: u64,
    stop_ns: u64,
    merge_gap_ms: u64,
)
    requires
        s.tracker.group is Some && s.tracker.group->0.open_since_ns is Some,
        s.tracker.pending_interruption is None,
        s.interruptions.len() < usize::MAX,
    ensures
        ({
            let opened = scene_after(s, LANE_MIC, SegEvent::Open { t_ns: open_ns }, merge_gap_ms);
            let stopped = scene_after(
                opened,
                LANE_SYS,
                SegEvent::Close { t_ns: stop_ns },
                merge_gap_ms,
            );
            &&& scene_after(opened, LANE_MIC, SegEvent::Cancel, merge_gap_ms).interruptions
                == s.interruptions
            &&& stop_ns > open_ns ==> scene_after(
                stopped,
                LANE_MIC,
                SegEvent::Cancel,
                merge_gap_ms,
            ).interruptions == s.interruptions
        }),
{
    let opened = scene_after(s, LANE_MIC, SegEvent::Open { t_ns: open_ns }, merge_gap_ms);
    let stopped = scene_after(opened, LANE_SYS, SegEvent::Close { t_ns: stop_ns }, merge_gap_ms);
    let gone = scene_after(opened, LANE_MIC, SegEvent::Cancel, merge_gap_ms);
    let late = scene_after(stopped, LANE_MIC, SegEvent::Cancel, merge_gap_ms);
    assert(gone.interruptions =~= s.interruptions);
    if stop_ns > open_ns {
        assert(late.interruptions =~= s.interruptions);
    }
}

/// An utterance that began while the bot was silent is no barge-in.
pub proof fn law_speech_in_silence_is_no_barge_in(
    s: Scene,
    open_ns: u64,
    close_ns: u64,
    merge_gap_ms: u64,
)
    requires
        s.tracker.group matches Some(g) ==> g.open_since_ns is None,
    ensures
        ({
            let opened = scene_after(s, LANE_MIC, SegEvent::Open { t_ns: open_ns }, merge_gap_ms);
            let after = scene_after(
                opened,
                LANE_MIC,
                SegEvent::Close { t_ns: close_ns },
                merge_gap_ms,
            );
            &&& after.interruptions == s.interruptions
            &&& !after.tracker.user_blocks.last().during_bot
        }),
{
}

/// The summary of a turn's flags names exactly those that are set, in a fixed
/// order.
pub proof fn law_every_set_flag_is_named(flags: TurnFlags)
    ensures
        ({
            let names = flag_names(flags);
            let b: int = if flags.barge_in {
                1
            } else {
                0
            };
            let d: int = if flags.double_talk {
                b + 1
            } else {
                b
            };
            let n: int = if flags.no_user_speech {
                d + 1
            } else {
                d
            };
            &&& flags.barge_in ==> names[0] == "barge-in"@
            &&& flags.double_talk ==> names[b] == "double-talk"@
            &&& flags.no_user_speech ==> names[d] == "no-user-speech"@
            &&& flags.after_discontinuity ==> names[n] == "device-change"@
        }),
        flag_names(flags).contains("barge-in"@) <==> flags.barge_in,
        flag_names(flags).contains("double-talk"@) <==> flags.double_talk,
        flag_names(flags).contains("no-user-speech"@) <==> flags.no_user_speech,
        flag_names(flags).contains("device-change"@) <==> flags.after_discontinuity,
        flag_names(flags).len() <= 4,
        flag_names(flags).no_duplicates(),
{
    reveal_strlit("barge-in");
    reveal_strlit("double-talk");
    reveal_strlit("no-user-speech");
    reveal_strlit("device-change");
    assert("barge-in"@.len() == 8 && "double-talk"@.len() == 11);
    assert("no-user-speech"@.len() == 14 && "device-change"@.len() == 13);
    let names = flag_names(flags);
    let b: int = if flags.barge_in {
        1
    } else {
        0
    };
    let d: int = if flags.double_talk {
        b + 1
    } else {
        b
    };
    let n: int = if flags.no_user_speech {
        d + 1
    } else {
        d
    };
    if flags.barge_in {
        assert(names[0] == "barge-in"@);
    }
    if flags.double_talk {
        assert(names[b] == "double-talk"@);
    }
    if flags.no_user_speech {
        assert(names[d] == "no-user-speech"@);
    }
    if flags.after_discontinuity {
        assert(names[n] == "device-change"@);
    }
}

} // verus!
