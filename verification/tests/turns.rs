use pipecat_audio_metrics::analysis::segmenter::SegEvent;
use pipecat_audio_metrics::analysis::turns::{
    InterruptionRecord, TurnFlags, TurnRecord, TurnTracker,
};
use pipecat_audio_metrics::audio::{LANE_MIC, LANE_SYS};
use pipecat_audio_metrics::millis::Millis;

const MS: u64 = 1_000_000;

fn ms(n: u64) -> Millis {
    Millis { ns: n * MS }
}

fn ev(
    tracker: &mut TurnTracker,
    lane: usize,
    e: SegEvent,
    turns: &mut Vec<TurnRecord>,
    itr: &mut Vec<InterruptionRecord>,
) {
    tracker.on_event(lane, e, 1000, turns, itr);
}

#[test]
fn basic_turn_latency() {
    let mut tr = TurnTracker::new();
    let mut turns = Vec::new();
    let mut itr = Vec::new();
    ev(&mut tr, LANE_MIC, SegEvent::Open { t_ns: 1000 * MS }, &mut turns, &mut itr);
    ev(&mut tr, LANE_MIC, SegEvent::Close { t_ns: 3000 * MS }, &mut turns, &mut itr);
    ev(&mut tr, LANE_SYS, SegEvent::Open { t_ns: 3800 * MS }, &mut turns, &mut itr);
    assert_eq!(turns.len(), 1);
    assert_eq!(turns[0].latency_ms, Some(ms(800)));
    assert!(turns[0].provisional);
    ev(&mut tr, LANE_SYS, SegEvent::Close { t_ns: 6000 * MS }, &mut turns, &mut itr);
    assert!(!turns[0].provisional);
    assert_eq!(turns[0].bot_group_end_ns, Some(6000 * MS));
}

#[test]
fn tts_sentence_pause_merges_into_one_group() {
    let mut tr = TurnTracker::new();
    let mut turns = Vec::new();
    let mut itr = Vec::new();
    ev(&mut tr, LANE_MIC, SegEvent::Open { t_ns: 0 }, &mut turns, &mut itr);
    ev(&mut tr, LANE_MIC, SegEvent::Close { t_ns: 2000 * MS }, &mut turns, &mut itr);
    ev(&mut tr, LANE_SYS, SegEvent::Open { t_ns: 2500 * MS }, &mut turns, &mut itr);
    ev(&mut tr, LANE_SYS, SegEvent::Close { t_ns: 4000 * MS }, &mut turns, &mut itr);
    // 600ms pause < merge_gap 1000ms → same group, no new turn
    ev(&mut tr, LANE_SYS, SegEvent::Open { t_ns: 4600 * MS }, &mut turns, &mut itr);
    ev(&mut tr, LANE_SYS, SegEvent::Close { t_ns: 7000 * MS }, &mut turns, &mut itr);
    assert_eq!(turns.len(), 1);
    assert_eq!(turns[0].bot_group_end_ns, Some(7000 * MS));
}

#[test]
fn multi_turn_conversation() {
    let mut tr = TurnTracker::new();
    let mut turns = Vec::new();
    let mut itr = Vec::new();
    // turn 1
    ev(&mut tr, LANE_MIC, SegEvent::Open { t_ns: 0 }, &mut turns, &mut itr);
    ev(&mut tr, LANE_MIC, SegEvent::Close { t_ns: 2000 * MS }, &mut turns, &mut itr);
    ev(&mut tr, LANE_SYS, SegEvent::Open { t_ns: 2700 * MS }, &mut turns, &mut itr);
    ev(&mut tr, LANE_SYS, SegEvent::Close { t_ns: 5000 * MS }, &mut turns, &mut itr);
    // turn 2: user replies 900ms after bot finished
    ev(&mut tr, LANE_MIC, SegEvent::Open { t_ns: 5900 * MS }, &mut turns, &mut itr);
    ev(&mut tr, LANE_MIC, SegEvent::Close { t_ns: 8000 * MS }, &mut turns, &mut itr);
    ev(&mut tr, LANE_SYS, SegEvent::Open { t_ns: 9000 * MS }, &mut turns, &mut itr);
    assert_eq!(turns.len(), 2);
    assert_eq!(turns[0].latency_ms, Some(ms(700)));
    assert_eq!(turns[1].latency_ms, Some(ms(1000)));
    assert_eq!(turns[1].user_response_ms, Some(ms(900)));
    assert!(!turns[1].flags.any());
}

#[test]
fn barge_in_flagged() {
    let mut tr = TurnTracker::new();
    let mut turns = Vec::new();
    let mut itr = Vec::new();
    ev(&mut tr, LANE_MIC, SegEvent::Open { t_ns: 0 }, &mut turns, &mut itr);
    ev(&mut tr, LANE_MIC, SegEvent::Close { t_ns: 1000 * MS }, &mut turns, &mut itr);
    ev(&mut tr, LANE_SYS, SegEvent::Open { t_ns: 1500 * MS }, &mut turns, &mut itr);
    // user barges in while bot is talking
    ev(&mut tr, LANE_MIC, SegEvent::Open { t_ns: 3000 * MS }, &mut turns, &mut itr);
    ev(&mut tr, LANE_SYS, SegEvent::Close { t_ns: 3400 * MS }, &mut turns, &mut itr);
    ev(&mut tr, LANE_MIC, SegEvent::Close { t_ns: 4500 * MS }, &mut turns, &mut itr);
    // bot responds to the barge
    ev(&mut tr, LANE_SYS, SegEvent::Open { t_ns: 5200 * MS }, &mut turns, &mut itr);
    assert_eq!(turns.len(), 2);
    assert!(turns[1].flags.barge_in);
    assert_eq!(turns[1].latency_ms, Some(ms(700)));
    // Interruption measured: mic opened at 3000, sys audio stopped at 3400.
    assert_eq!(itr.len(), 1);
    assert_eq!(itr[0].mic_open_ns, 3000 * MS);
    assert_eq!(itr[0].sys_stop_ns, Some(3400 * MS));
    assert_eq!(itr[0].stop_ms, Some(ms(400)));
}

#[test]
fn cancelled_barge_blip_retracts_interruption() {
    let mut tr = TurnTracker::new();
    let mut turns = Vec::new();
    let mut itr = Vec::new();
    ev(&mut tr, LANE_MIC, SegEvent::Open { t_ns: 0 }, &mut turns, &mut itr);
    ev(&mut tr, LANE_MIC, SegEvent::Close { t_ns: 1000 * MS }, &mut turns, &mut itr);
    ev(&mut tr, LANE_SYS, SegEvent::Open { t_ns: 1500 * MS }, &mut turns, &mut itr);
    // mic blip during bot audio: interruption recorded then retracted
    ev(&mut tr, LANE_MIC, SegEvent::Open { t_ns: 3000 * MS }, &mut turns, &mut itr);
    assert_eq!(itr.len(), 1);
    ev(&mut tr, LANE_MIC, SegEvent::Cancel, &mut turns, &mut itr);
    assert!(itr.is_empty());
    // a later real sys close does not resurrect it
    ev(&mut tr, LANE_SYS, SegEvent::Close { t_ns: 5000 * MS }, &mut turns, &mut itr);
    assert!(itr.is_empty());
}

#[test]
fn interruption_open_until_sys_close() {
    let mut tr = TurnTracker::new();
    let mut turns = Vec::new();
    let mut itr = Vec::new();
    ev(&mut tr, LANE_SYS, SegEvent::Open { t_ns: 1000 * MS }, &mut turns, &mut itr);
    ev(&mut tr, LANE_MIC, SegEvent::Open { t_ns: 2000 * MS }, &mut turns, &mut itr);
    // still in flight while bot keeps talking
    assert_eq!(itr.len(), 1);
    assert_eq!(itr[0].sys_stop_ns, None);
    ev(&mut tr, LANE_MIC, SegEvent::Close { t_ns: 2600 * MS }, &mut turns, &mut itr);
    assert_eq!(itr[0].sys_stop_ns, None);
    ev(&mut tr, LANE_SYS, SegEvent::Close { t_ns: 3100 * MS }, &mut turns, &mut itr);
    assert_eq!(itr[0].stop_ms, Some(ms(1100)));
}

#[test]
fn bot_solo_flagged_no_user_speech() {
    let mut tr = TurnTracker::new();
    let mut turns = Vec::new();
    let mut itr = Vec::new();
    ev(&mut tr, LANE_SYS, SegEvent::Open { t_ns: 1000 * MS }, &mut turns, &mut itr);
    assert_eq!(turns.len(), 1);
    assert!(turns[0].flags.no_user_speech);
    assert_eq!(turns[0].latency_ms, None);
}

/// The mic Close event arrives after the bot onset (hangover delay) but
/// is backdated to before it: the turn must still get its latency.
#[test]
fn late_mic_close_still_yields_latency() {
    let mut tr = TurnTracker::new();
    let mut turns = Vec::new();
    let mut itr = Vec::new();
    ev(&mut tr, LANE_MIC, SegEvent::Open { t_ns: 1000 * MS }, &mut turns, &mut itr);
    ev(&mut tr, LANE_SYS, SegEvent::Open { t_ns: 3000 * MS }, &mut turns, &mut itr);
    assert_eq!(turns.len(), 1);
    assert_eq!(turns[0].latency_ms, None, "deferred until the mic close");
    // Close arrives late, backdated to 2800 (before the 3000 onset).
    ev(&mut tr, LANE_MIC, SegEvent::Close { t_ns: 2800 * MS }, &mut turns, &mut itr);
    assert_eq!(turns[0].latency_ms, Some(ms(200)));
    assert_eq!(turns[0].user_end_ns, Some(2800 * MS));
    assert!(!turns[0].flags.any(), "flags: {:?}", turns[0].flags);
}

/// Echo/noise opens the mic just before the bot-onset event and later
/// cancels: the turn pairs with the real preceding utterance.
#[test]
fn cancelled_blip_at_onset_falls_back_to_last_block() {
    let mut tr = TurnTracker::new();
    let mut turns = Vec::new();
    let mut itr = Vec::new();
    ev(&mut tr, LANE_MIC, SegEvent::Open { t_ns: 1000 * MS }, &mut turns, &mut itr);
    ev(&mut tr, LANE_MIC, SegEvent::Close { t_ns: 2000 * MS }, &mut turns, &mut itr);
    ev(&mut tr, LANE_MIC, SegEvent::Open { t_ns: 2950 * MS }, &mut turns, &mut itr);
    ev(&mut tr, LANE_SYS, SegEvent::Open { t_ns: 3000 * MS }, &mut turns, &mut itr);
    assert_eq!(turns[0].latency_ms, None);
    ev(&mut tr, LANE_MIC, SegEvent::Cancel, &mut turns, &mut itr);
    assert_eq!(turns[0].latency_ms, Some(ms(1000)));
    assert_eq!(turns[0].user_end_ns, Some(2000 * MS));
    assert!(!turns[0].flags.any(), "flags: {:?}", turns[0].flags);
}

/// A mic block genuinely spanning the bot onset is double talk and the
/// latency stays undefined.
#[test]
fn overlapping_close_marks_double_talk() {
    let mut tr = TurnTracker::new();
    let mut turns = Vec::new();
    let mut itr = Vec::new();
    ev(&mut tr, LANE_MIC, SegEvent::Open { t_ns: 1000 * MS }, &mut turns, &mut itr);
    ev(&mut tr, LANE_SYS, SegEvent::Open { t_ns: 3000 * MS }, &mut turns, &mut itr);
    ev(&mut tr, LANE_MIC, SegEvent::Close { t_ns: 3500 * MS }, &mut turns, &mut itr);
    assert_eq!(turns[0].latency_ms, None);
    assert!(turns[0].flags.double_talk);
    assert!(!turns[0].flags.barge_in);
}

/// A short mic blip during bot audio (speaker echo) must not leave a
/// dangling interruption record or flag the next turn as a barge-in.
#[test]
fn short_echo_blip_retracts_interruption_and_barge() {
    let mut tr = TurnTracker::new();
    let mut turns = Vec::new();
    let mut itr = Vec::new();
    ev(&mut tr, LANE_MIC, SegEvent::Open { t_ns: 0 }, &mut turns, &mut itr);
    ev(&mut tr, LANE_MIC, SegEvent::Close { t_ns: 1000 * MS }, &mut turns, &mut itr);
    ev(&mut tr, LANE_SYS, SegEvent::Open { t_ns: 1500 * MS }, &mut turns, &mut itr);
    // 145ms echo blip during bot audio: recorded then retracted on close.
    ev(&mut tr, LANE_MIC, SegEvent::Open { t_ns: 4950 * MS }, &mut turns, &mut itr);
    assert_eq!(itr.len(), 1);
    ev(&mut tr, LANE_MIC, SegEvent::Close { t_ns: 5095 * MS }, &mut turns, &mut itr);
    assert!(itr.is_empty(), "blip interruption should retract: {itr:?}");
    ev(&mut tr, LANE_SYS, SegEvent::Close { t_ns: 13962 * MS }, &mut turns, &mut itr);
    assert!(itr.is_empty(), "sys close must not resurrect it");
    // Real user turn after the bot finished: no barge-in.
    ev(&mut tr, LANE_MIC, SegEvent::Open { t_ns: 15069 * MS }, &mut turns, &mut itr);
    ev(&mut tr, LANE_MIC, SegEvent::Close { t_ns: 15527 * MS }, &mut turns, &mut itr);
    ev(&mut tr, LANE_SYS, SegEvent::Open { t_ns: 17161 * MS }, &mut turns, &mut itr);
    assert_eq!(turns.len(), 2);
    assert_eq!(turns[1].latency_ms, Some(ms(17161 - 15527)));
    assert!(!turns[1].flags.barge_in, "flags: {:?}", turns[1].flags);
    assert!(!turns[1].flags.double_talk);
}

/// A real barge (long enough) keeps its interruption record and flags
/// the turn it triggers.
#[test]
fn real_barge_keeps_record_and_flag() {
    let mut tr = TurnTracker::new();
    let mut turns = Vec::new();
    let mut itr = Vec::new();
    ev(&mut tr, LANE_SYS, SegEvent::Open { t_ns: 1000 * MS }, &mut turns, &mut itr);
    ev(&mut tr, LANE_MIC, SegEvent::Open { t_ns: 3000 * MS }, &mut turns, &mut itr);
    ev(&mut tr, LANE_SYS, SegEvent::Close { t_ns: 3400 * MS }, &mut turns, &mut itr);
    ev(&mut tr, LANE_MIC, SegEvent::Close { t_ns: 4500 * MS }, &mut turns, &mut itr);
    ev(&mut tr, LANE_SYS, SegEvent::Open { t_ns: 5200 * MS }, &mut turns, &mut itr);
    assert_eq!(itr.len(), 1);
    assert_eq!(itr[0].stop_ms, Some(ms(400)));
    assert!(turns[1].flags.barge_in);
    assert_eq!(turns[1].latency_ms, Some(ms(700)));
}

#[test]
fn cancelled_bot_blip_retracts_turn() {
    let mut tr = TurnTracker::new();
    let mut turns = Vec::new();
    let mut itr = Vec::new();
    ev(&mut tr, LANE_MIC, SegEvent::Open { t_ns: 0 }, &mut turns, &mut itr);
    ev(&mut tr, LANE_MIC, SegEvent::Close { t_ns: 1000 * MS }, &mut turns, &mut itr);
    ev(&mut tr, LANE_SYS, SegEvent::Open { t_ns: 1500 * MS }, &mut turns, &mut itr);
    assert_eq!(turns.len(), 1);
    ev(&mut tr, LANE_SYS, SegEvent::Cancel, &mut turns, &mut itr);
    assert_eq!(turns.len(), 0);
    // Real response afterwards pairs with the same user block.
    ev(&mut tr, LANE_SYS, SegEvent::Open { t_ns: 2000 * MS }, &mut turns, &mut itr);
    assert_eq!(turns.len(), 1);
    assert_eq!(turns[0].latency_ms, Some(ms(1000)));
}

/// The output device changed: the next turn is flagged, the one after is not.
#[test]
fn device_change_flags_only_the_next_turn() {
    let mut tr = TurnTracker::new();
    let mut turns = Vec::new();
    let mut itr = Vec::new();
    tr.note_discontinuity();
    ev(&mut tr, LANE_SYS, SegEvent::Open { t_ns: 1000 * MS }, &mut turns, &mut itr);
    ev(&mut tr, LANE_SYS, SegEvent::Close { t_ns: 2000 * MS }, &mut turns, &mut itr);
    ev(&mut tr, LANE_SYS, SegEvent::Open { t_ns: 9000 * MS }, &mut turns, &mut itr);
    assert_eq!(turns.len(), 2);
    assert!(turns[0].flags.after_discontinuity);
    assert!(!turns[1].flags.after_discontinuity);
}

/// A pause shorter than the merge gap continues the response; one as long as
/// the gap starts a new turn.
#[test]
fn merge_gap_is_exclusive() {
    for (pause, expected) in [(1000 * MS - 1, 1usize), (1000 * MS, 2)] {
        let mut tr = TurnTracker::new();
        let mut turns = Vec::new();
        let mut itr = Vec::new();
        ev(&mut tr, LANE_SYS, SegEvent::Open { t_ns: 1000 * MS }, &mut turns, &mut itr);
        ev(&mut tr, LANE_SYS, SegEvent::Close { t_ns: 2000 * MS }, &mut turns, &mut itr);
        ev(&mut tr, LANE_SYS, SegEvent::Open { t_ns: 2000 * MS + pause }, &mut turns, &mut itr);
        assert_eq!(turns.len(), expected);
    }
}

/// A bot stop backdated to before the mic onset means there was nothing to
/// interrupt.
#[test]
fn stop_before_mic_onset_is_no_interruption() {
    let mut tr = TurnTracker::new();
    let mut turns = Vec::new();
    let mut itr = Vec::new();
    ev(&mut tr, LANE_SYS, SegEvent::Open { t_ns: 1000 * MS }, &mut turns, &mut itr);
    ev(&mut tr, LANE_MIC, SegEvent::Open { t_ns: 3000 * MS }, &mut turns, &mut itr);
    assert_eq!(itr.len(), 1);
    ev(&mut tr, LANE_SYS, SegEvent::Close { t_ns: 3000 * MS }, &mut turns, &mut itr);
    assert!(itr.is_empty());
}

/// Sustained user audio under the bot is double talk on the current turn.
#[test]
fn sustained_overlap_is_double_talk() {
    for (end, expected) in [(2249, false), (2250, true)] {
        let mut tr = TurnTracker::new();
        let mut turns = Vec::new();
        let mut itr = Vec::new();
        ev(&mut tr, LANE_SYS, SegEvent::Open { t_ns: 1000 * MS }, &mut turns, &mut itr);
        ev(&mut tr, LANE_MIC, SegEvent::Open { t_ns: 2000 * MS }, &mut turns, &mut itr);
        ev(&mut tr, LANE_MIC, SegEvent::Close { t_ns: end * MS }, &mut turns, &mut itr);
        assert_eq!(turns[0].flags.double_talk, expected);
        assert_eq!(itr.is_empty(), !expected);
    }
}

#[test]
fn other_lanes_and_reset() {
    let mut tr = TurnTracker::new();
    let mut turns: Vec<TurnRecord> = Vec::new();
    let mut itr: Vec<InterruptionRecord> = Vec::new();
    ev(&mut tr, 7, SegEvent::Open { t_ns: 1000 * MS }, &mut turns, &mut itr);
    assert!(turns.is_empty() && itr.is_empty());
    ev(&mut tr, LANE_MIC, SegEvent::Open { t_ns: 1000 * MS }, &mut turns, &mut itr);
    ev(&mut tr, LANE_MIC, SegEvent::Close { t_ns: 2000 * MS }, &mut turns, &mut itr);
    tr.reset();
    ev(&mut tr, LANE_SYS, SegEvent::Open { t_ns: 3000 * MS }, &mut turns, &mut itr);
    assert!(turns[0].flags.no_user_speech, "the utterance was forgotten");
}

#[test]
fn flags_are_named_in_order() {
    let all = TurnFlags {
        barge_in: true,
        double_talk: true,
        no_user_speech: true,
        after_discontinuity: true,
    };
    assert_eq!(all.summary(), "barge-in, double-talk, no-user-speech, device-change");
    let one = TurnFlags { double_talk: true, ..TurnFlags::default() };
    assert_eq!(one.summary(), "double-talk");
    assert!(one.any());
    assert_eq!(TurnFlags::default().summary(), "");
    assert!(!TurnFlags::default().any());
}

/// Runs a sequence of edges, times in milliseconds, through a new tracker.
fn play(edges: &[(usize, SegEvent)]) -> (Vec<TurnRecord>, Vec<InterruptionRecord>) {
    let mut tr = TurnTracker::new();
    let mut turns = Vec::new();
    let mut itr = Vec::new();
    for &(lane, e) in edges {
        ev(&mut tr, lane, e, &mut turns, &mut itr);
    }
    (turns, itr)
}

fn open(lane: usize, at_ms: u64) -> (usize, SegEvent) {
    (lane, SegEvent::Open { t_ns: at_ms * MS })
}

fn close(lane: usize, at_ms: u64) -> (usize, SegEvent) {
    (lane, SegEvent::Close { t_ns: at_ms * MS })
}

fn cancel(lane: usize) -> (usize, SegEvent) {
    (lane, SegEvent::Cancel)
}

/// An echo blip that ended while the bot was talking does not flag the response
/// that is paired with it.
#[test]
fn echo_blip_flags_no_barge_in() {
    let (turns, itr) = play(&[
        open(LANE_MIC, 0),
        close(LANE_MIC, 1000),
        open(LANE_SYS, 1500),
        open(LANE_MIC, 4950),
        close(LANE_MIC, 5095),
        close(LANE_SYS, 6000),
        open(LANE_SYS, 8000),
    ]);
    assert_eq!(turns.len(), 2);
    assert_eq!(turns[1].user_end_ns, Some(5095 * MS));
    assert!(!turns[1].flags.barge_in);
    assert!(itr.is_empty());
    // One that ends after the bot stopped did interrupt it.
    let (turns, itr) = play(&[
        open(LANE_SYS, 1500),
        open(LANE_MIC, 4950),
        close(LANE_SYS, 5000),
        close(LANE_MIC, 5095),
        open(LANE_SYS, 8000),
    ]);
    assert!(turns[1].flags.barge_in);
    assert_eq!(itr[0].stop_ms, Some(ms(50)));
}

/// A cancelled mic blip does not change the user's response time, whether it is
/// cancelled before the response starts or afterwards.
#[test]
fn cancelled_mic_blip_keeps_response_time() {
    let before = [
        open(LANE_SYS, 2700),
        close(LANE_SYS, 5000),
        open(LANE_MIC, 5900),
        close(LANE_MIC, 8000),
    ];
    let plain = play(&[&before[..], &[open(LANE_SYS, 9000)]].concat());
    assert_eq!(plain.0[1].user_start_ns, Some(5900 * MS));
    assert_eq!(plain.0[1].user_response_ms, Some(ms(900)));
    let blip = play(
        &[&before[..], &[open(LANE_MIC, 8500), cancel(LANE_MIC), open(LANE_SYS, 9000)]].concat(),
    );
    assert_eq!(blip, plain);
    let late = play(
        &[&before[..], &[open(LANE_MIC, 8500), open(LANE_SYS, 9000), cancel(LANE_MIC)]].concat(),
    );
    assert_eq!(late, plain);
    // A second real utterance is the one that counts.
    let second = play(
        &[
            &before[..],
            &[open(LANE_MIC, 8500), close(LANE_MIC, 8800), open(LANE_SYS, 9000)],
        ]
        .concat(),
    );
    assert_eq!(second.0[1].user_response_ms, Some(ms(3500)));
}

/// While the only utterance is still open, and when it turns out to be double
/// talk, the response time is that of the utterance; otherwise it always is that
/// of the utterance that the turn shows.
#[test]
fn open_utterance_has_its_response_time() {
    let edges = [
        open(LANE_SYS, 2700),
        close(LANE_SYS, 5000),
        open(LANE_MIC, 5900),
        open(LANE_SYS, 9000),
    ];
    assert_eq!(play(&edges).0[1].user_response_ms, Some(ms(900)));
    let talked_over = play(&[&edges[..], &[close(LANE_MIC, 9500)]].concat());
    assert!(talked_over.0[1].flags.double_talk);
    assert_eq!(talked_over.0[1].user_response_ms, Some(ms(900)));
    let second = [
        open(LANE_SYS, 2700),
        close(LANE_SYS, 5000),
        open(LANE_MIC, 5900),
        close(LANE_MIC, 8000),
        open(LANE_MIC, 8500),
        open(LANE_SYS, 9000),
    ];
    let shown = |turns: Vec<TurnRecord>| (turns[1].user_start_ns, turns[1].user_response_ms);
    assert_eq!(shown(play(&second).0), (Some(5900 * MS), Some(ms(900))));
    let answered = play(&[&second[..], &[close(LANE_MIC, 8900)]].concat());
    assert_eq!(shown(answered.0), (Some(8500 * MS), Some(ms(3500))));
    let talked_over = play(&[&second[..], &[close(LANE_MIC, 9500)]].concat());
    assert!(talked_over.0[1].flags.double_talk);
    assert_eq!(shown(talked_over.0), (Some(5900 * MS), Some(ms(900))));
}

/// A cancelled bot blip takes nothing with it: the device change, the response
/// time and the previous response are still there for the real response.
#[test]
fn cancelled_bot_blip_leaves_no_trace() {
    let run = |blip: bool| {
        let mut tr = TurnTracker::new();
        let mut turns = Vec::new();
        let mut itr = Vec::new();
        let before = [
            open(LANE_SYS, 2700),
            close(LANE_SYS, 5000),
            open(LANE_MIC, 5900),
            close(LANE_MIC, 8000),
        ];
        for (lane, e) in before {
            ev(&mut tr, lane, e, &mut turns, &mut itr);
        }
        tr.note_discontinuity();
        if blip {
            ev(&mut tr, LANE_SYS, SegEvent::Open { t_ns: 8300 * MS }, &mut turns, &mut itr);
            assert!(turns[1].flags.after_discontinuity);
            ev(&mut tr, LANE_SYS, SegEvent::Cancel, &mut turns, &mut itr);
            assert_eq!(turns.len(), 1);
        }
        ev(&mut tr, LANE_SYS, SegEvent::Open { t_ns: 9000 * MS }, &mut turns, &mut itr);
        ev(&mut tr, LANE_SYS, SegEvent::Close { t_ns: 9900 * MS }, &mut turns, &mut itr);
        ev(&mut tr, LANE_SYS, SegEvent::Open { t_ns: 12_000 * MS }, &mut turns, &mut itr);
        (turns, itr)
    };
    let (turns, itr) = run(true);
    assert_eq!((turns.clone(), itr), run(false));
    assert!(turns[1].flags.after_discontinuity);
    assert_eq!(turns[1].user_response_ms, Some(ms(900)));
    assert_eq!(turns[1].latency_ms, Some(ms(1000)));
    assert!(!turns[2].flags.after_discontinuity);
}

/// A response that the user is still talking over stays unresolved when a bot
/// blip comes and goes, even if the utterance ends in between.
#[test]
fn bot_blip_does_not_settle_the_turn_before_it() {
    let before = [
        open(LANE_MIC, 1000),
        close(LANE_MIC, 2000),
        open(LANE_MIC, 2950),
        open(LANE_SYS, 3000),
        close(LANE_SYS, 4000),
    ];
    let plain = play(&[&before[..], &[cancel(LANE_MIC)]].concat());
    assert_eq!(plain.0[0].latency_ms, Some(ms(1000)));
    let gone = play(
        &[&before[..], &[open(LANE_SYS, 5500), cancel(LANE_SYS), cancel(LANE_MIC)]].concat(),
    );
    assert_eq!(gone, plain);
    let between = play(
        &[&before[..], &[open(LANE_SYS, 5500), cancel(LANE_MIC), cancel(LANE_SYS)]].concat(),
    );
    assert_eq!(between, plain);
    // A response that is real settles it.
    let real = play(&[&before[..], &[open(LANE_SYS, 5500), close(LANE_SYS, 6500)]].concat());
    assert!(real.0[0].flags.double_talk);
}

/// Speech that began after the bot's last sound, or over a bot blip, is no
/// barge-in, though the bot seemed to be talking when it began.
#[test]
fn speech_beside_bot_audio_is_no_barge_in() {
    let (turns, itr) = play(&[
        open(LANE_SYS, 1000),
        open(LANE_MIC, 3100),
        close(LANE_SYS, 3000),
        close(LANE_MIC, 4500),
        open(LANE_SYS, 5200),
    ]);
    assert!(itr.is_empty());
    assert!(!turns[1].flags.barge_in);
    assert_eq!(turns[1].user_response_ms, Some(ms(100)));
    let (turns, itr) = play(&[
        open(LANE_SYS, 1000),
        open(LANE_MIC, 1050),
        cancel(LANE_SYS),
        close(LANE_MIC, 2500),
        open(LANE_SYS, 3200),
    ]);
    assert!(itr.is_empty());
    assert_eq!(turns.len(), 1);
    assert!(!turns[0].flags.any(), "flags: {:?}", turns[0].flags);
    assert_eq!(turns[0].latency_ms, Some(ms(700)));
}

/// User audio that overlaps the response is double talk, though the bot block it
/// began over was over already, or was a blip, or there was none.
#[test]
fn overlap_with_resumed_audio_is_double_talk() {
    let over_hangover = play(&[
        open(LANE_SYS, 1000),
        open(LANE_MIC, 2000),
        close(LANE_SYS, 1900),
        open(LANE_SYS, 2200),
        close(LANE_MIC, 3000),
    ]);
    let over_blip = play(&[
        open(LANE_SYS, 1000),
        close(LANE_SYS, 2000),
        open(LANE_SYS, 2300),
        open(LANE_MIC, 2350),
        cancel(LANE_SYS),
        open(LANE_SYS, 2700),
        close(LANE_MIC, 3500),
    ]);
    let in_pause = play(&[
        open(LANE_SYS, 1000),
        close(LANE_SYS, 2000),
        open(LANE_MIC, 2100),
        open(LANE_SYS, 2200),
        close(LANE_MIC, 3500),
    ]);
    for (turns, itr) in [over_hangover, over_blip, in_pause] {
        assert_eq!(turns.len(), 1);
        assert!(turns[0].flags.double_talk);
        assert!(!turns[0].flags.barge_in);
        assert!(itr.is_empty());
    }
}

/// An utterance that ended before the response went on, or just as it began, does
/// not overlap it, though its end is reported later.
#[test]
fn utterance_in_a_pause_is_no_double_talk() {
    let (turns, _) = play(&[
        open(LANE_SYS, 1000),
        close(LANE_SYS, 2000),
        open(LANE_MIC, 2100),
        open(LANE_SYS, 2900),
        close(LANE_MIC, 2800),
    ]);
    assert!(!turns[0].flags.double_talk);
    let (turns, _) = play(&[open(LANE_MIC, 1000), open(LANE_SYS, 3000), close(LANE_MIC, 3000)]);
    assert_eq!(turns[0].latency_ms, Some(ms(0)));
    assert!(!turns[0].flags.any(), "flags: {:?}", turns[0].flags);
    // Over the response itself it does, though the bot paused before it ended.
    let (turns, _) = play(&[
        open(LANE_SYS, 1000),
        open(LANE_MIC, 1500),
        close(LANE_SYS, 2000),
        open(LANE_SYS, 2900),
        close(LANE_MIC, 2800),
    ]);
    assert!(turns[0].flags.double_talk);
}
