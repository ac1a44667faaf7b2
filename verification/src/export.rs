//! What is exported of a session: all times relative to its start, derived
//! figures worked out.

use vstd::prelude::*;
use crate::analysis::rtvi::{
    delta_value, interruption_register_ms, nearest_delta, rtvi_deltas, RtviDeltas,
};
use crate::analysis::stats::{summarize, summary_of, StatsSummary};
use crate::analysis::turns::{InterruptionRecord, TurnFlags, TurnRecord};
use crate::audio::{LANE_MIC, LANE_SYS};
use crate::millis::{span_ns, Millis, SignedMillis};
use crate::session::{confirmed_latencies, shifted, Block, Shared};

verus! {

/// One turn as exported.
#[derive(Clone, Copy, Debug, PartialEq, Eq, Structural)]
pub struct TurnRow {
    pub index: usize,
    pub user_start_ms: Option<Millis>,
    pub user_end_ms: Option<Millis>,
    pub bot_onset_ms: Millis,
    pub bot_group_end_ms: Option<Millis>,
    pub latency_ms: Option<Millis>,
    /// The latency with what the rig adds, where both are known.
    pub perceived_latency_ms: Option<Millis>,
    pub user_response_ms: Option<Millis>,
    pub provisional: bool,
    pub flags: TurnFlags,
    pub rtvi: RtviDeltas,
}

/// One interruption as exported.
#[derive(Clone, Copy, Debug, PartialEq, Eq, Structural)]
pub struct InterruptionRow {
    pub mic_open_ms: Millis,
    pub sys_stop_ms: Option<Millis>,
    pub stop_ms: Option<Millis>,
    pub register_ms: Option<SignedMillis>,
}

/// One block as exported.
#[derive(Clone, Copy, Debug, PartialEq, Eq, Structural)]
pub struct BlockRow {
    pub start_ms: Millis,
    pub end_ms: Millis,
}

/// A session as exported.
pub struct SessionReport {
    pub duration_ms: Millis,
    pub rig_latency_ms: Option<Millis>,
    pub response_latency_ms: StatsSummary,
    pub turns: Vec<TurnRow>,
    pub interruptions: Vec<InterruptionRow>,
    pub mic_blocks: Vec<BlockRow>,
    /// Classified speech (for display; the blocks drive the metrics).
    pub mic_speech: Vec<BlockRow>,
    pub system_blocks: Vec<BlockRow>,
    /// When each bridge event counts as having happened.
    pub event_ms: Vec<Millis>,
    pub discontinuities_ms: Vec<Millis>,
}

/// A moment relative to the session's start.
pub open spec fn relative(sh: Shared, t_ns: u64) -> Millis {
    Millis { ns: span_ns(sh.session_start_ns, t_ns) }
}

/// An optional moment relative to the session's start.
pub open spec fn relative_opt(sh: Shared, t_ns: Option<u64>) -> Option<Millis> {
    match t_ns {
        Some(t) => Some(relative(sh, t)),
        None => None,
    }
}

/// A latency as perceived: with what the rig adds to it.
pub open spec fn perceived(latency: Option<Millis>, rig: Option<Millis>) -> Option<Millis> {
    match (latency, rig) {
        (Some(l), Some(r)) => Some(l.sum(r)),
        _ => None,
    }
}

/// The raw gap understates what the human perceives: a perceived latency is
/// never shorter than the measured one.
pub proof fn law_perceived_is_not_shorter(latency: Millis, rig: Option<Millis>)
    ensures
        perceived(Some(latency), rig) matches Some(p) ==> p.ns >= latency.ns,
        perceived(Some(latency), rig) is Some <==> rig is Some,
{
}

/// The deltas are those of the turn.
pub open spec fn deltas_of(d: RtviDeltas, sh: Shared, t: TurnRecord) -> bool {
    &&& delta_value(d.vad_stop_delta_ms) == match t.user_end_ns {
        Some(end) => nearest_delta(
            sh.events@,
            "user_stopped_speaking"@,
            end,
            sh.cfg.rtvi_offset_ms,
        ),
        None => None,
    }
    &&& delta_value(d.bot_start_delta_ms) == match nearest_delta(
        sh.events@,
        "bot_started_speaking"@,
        t.bot_onset_ns,
        sh.cfg.rtvi_offset_ms,
    ) {
        Some(d) => Some(-d),
        None => None,
    }
}

/// The row is that of the turn.
pub open spec fn turn_row_of(row: TurnRow, sh: Shared, t: TurnRecord) -> bool {
    &&& row == TurnRow {
        index: t.index,
        user_start_ms: relative_opt(sh, t.user_start_ns),
        user_end_ms: relative_opt(sh, t.user_end_ns),
        bot_onset_ms: relative(sh, t.bot_onset_ns),
        bot_group_end_ms: relative_opt(sh, t.bot_group_end_ns),
        latency_ms: t.latency_ms,
        perceived_latency_ms: perceived(t.latency_ms, sh.devices.rig_latency()),
        user_response_ms: t.user_response_ms,
        provisional: t.provisional,
        flags: t.flags,
        rtvi: row.rtvi,
    }
    &&& deltas_of(row.rtvi, sh, t)
}

/// The row is that of the interruption.
pub open spec fn interruption_row_of(
    row: InterruptionRow,
    sh: Shared,
    i: InterruptionRecord,
) -> bool {
    &&& row.mic_open_ms == relative(sh, i.mic_open_ns)
    &&& row.sys_stop_ms == relative_opt(sh, i.sys_stop_ns)
    &&& row.stop_ms == i.stop_ms
    &&& delta_value(row.register_ms) == nearest_delta(
        sh.events@,
        "user_started_speaking"@,
        i.mic_open_ns,
        sh.cfg.rtvi_offset_ms,
    )
}

/// The blocks relative to the session's start.
pub open spec fn block_rows_of(sh: Shared, blocks: Seq<Block>) -> Seq<BlockRow> {
    Seq::new(
        blocks.len(),
        |i: int|
            BlockRow {
                start_ms: relative(sh, blocks[i].start_ns),
                end_ms: relative(sh, blocks[i].end_ns),
            },
    )
}

fn rel_opt(sh: &Shared, t_ns: Option<u64>) -> (ms: Option<Millis>)
    ensures
        ms == relative_opt(*sh, t_ns),
{
    match t_ns {
        Some(t) => Some(sh.rel_ms(t)),
        None => None,
    }
}

/// The latency with what the rig adds, where both are known.
pub fn perceived_latency_ms(latency: Option<Millis>, rig: Option<Millis>) -> (ms: Option<Millis>)
    ensures
        ms == perceived(latency, rig),
{
    match (latency, rig) {
        (Some(l), Some(r)) => Some(l.plus(r)),
        _ => None,
    }
}

/// A turn as exported and as shown among the results.
pub fn turn_row(sh: &Shared, t: &TurnRecord) -> (row: TurnRow)
    ensures
        turn_row_of(row, *sh, *t),
{
    TurnRow {
        index: t.index,
        user_start_ms: rel_opt(sh, t.user_start_ns),
        user_end_ms: rel_opt(sh, t.user_end_ns),
        bot_onset_ms: sh.rel_ms(t.bot_onset_ns),
        bot_group_end_ms: rel_opt(sh, t.bot_group_end_ns),
        latency_ms: t.latency_ms,
        perceived_latency_ms: perceived_latency_ms(t.latency_ms, sh.devices.rig_latency_ms()),
        user_response_ms: t.user_response_ms,
        provisional: t.provisional,
        flags: t.flags,
        rtvi: rtvi_deltas(t, &sh.events, sh.cfg.rtvi_offset_ms),
    }
}

/// All turns as exported.
pub fn turn_rows(sh: &Shared) -> (rows: Vec<TurnRow>)
    ensures
        rows@.len() == sh.turns@.len(),
        forall|i: int|
            0 <= i < rows@.len() ==> turn_row_of(#[trigger] rows@[i], *sh, sh.turns@[i]),
{
    let mut rows: Vec<TurnRow> = Vec::new();
    let mut i: usize = 0;
    while i < sh.turns.len()
        invariant
            i <= sh.turns@.len(),
            rows@.len() == i,
            forall|k: int| 0 <= k < i ==> turn_row_of(#[trigger] rows@[k], *sh, sh.turns@[k]),
        decreases sh.turns@.len() - i,
    {
        rows.push(turn_row(sh, &sh.turns[i]));
        i = i + 1;
    }
    rows
}

fn interruption_rows(sh: &Shared) -> (rows: Vec<InterruptionRow>)
    ensures
        rows@.len() == sh.interruptions@.len(),
        forall|i: int|
            0 <= i < rows@.len() ==> interruption_row_of(
                #[trigger] rows@[i],
                *sh,
                sh.interruptions@[i],
            ),
{
    let mut rows: Vec<InterruptionRow> = Vec::new();
    let mut i: usize = 0;
    while i < sh.interruptions.len()
        invariant
            i <= sh.interruptions@.len(),
            rows@.len() == i,
            forall|k: int|
                0 <= k < i ==> interruption_row_of(
                    #[trigger] rows@[k],
                    *sh,
                    sh.interruptions@[k],
                ),
        decreases sh.interruptions@.len() - i,
    {
        let r = sh.interruptions[i];
        rows.push(
            InterruptionRow {
                mic_open_ms: sh.rel_ms(r.mic_open_ns),
                sys_stop_ms: rel_opt(sh, r.sys_stop_ns),
                stop_ms: r.stop_ms,
                register_ms: interruption_register_ms(
                    &sh.events,
                    r.mic_open_ns,
                    sh.cfg.rtvi_offset_ms,
                ),
            },
        );
        i = i + 1;
    }
    rows
}

/// Blocks relative to the session's start.
pub fn block_rows(sh: &Shared, blocks: &Vec<Block>) -> (rows: Vec<BlockRow>)
    ensures
        rows@ == block_rows_of(*sh, blocks@),
{
    let mut rows: Vec<BlockRow> = Vec::new();
    let mut i: usize = 0;
    while i < blocks.len()
        invariant
            i <= blocks@.len(),
            rows@ == block_rows_of(*sh, blocks@.take(i as int)),
        decreases blocks@.len() - i,
    {
        let b = blocks[i];
        rows.push(BlockRow { start_ms: sh.rel_ms(b.start_ns), end_ms: sh.rel_ms(b.end_ns) });
        assert(rows@ =~= block_rows_of(*sh, blocks@.take(i + 1)));
        i = i + 1;
    }
    assert(blocks@.take(blocks@.len() as int) =~= blocks@);
    rows
}

/// When each bridge event counts as having happened, relative to the session's
/// start.
pub fn event_times(sh: &Shared) -> (times: Vec<Millis>)
    ensures
        times@ == Seq::new(
            sh.events@.len(),
            |i: int| relative(*sh, shifted(sh.events@[i].t_ns, sh.cfg.rtvi_offset_ms)),
        ),
{
    let mut times: Vec<Millis> = Vec::new();
    let mut i: usize = 0;
    while i < sh.events.len()
        invariant
            i <= sh.events@.len(),
            times@ == Seq::new(
                i as nat,
                |k: int| relative(*sh, shifted(sh.events@[k].t_ns, sh.cfg.rtvi_offset_ms)),
            ),
        decreases sh.events@.len() - i,
    {
        times.push(sh.rel_ms(sh.events[i].corrected_ns(sh.cfg.rtvi_offset_ms)));
        assert(times@ =~= Seq::new(
            (i + 1) as nat,
            |k: int| relative(*sh, shifted(sh.events@[k].t_ns, sh.cfg.rtvi_offset_ms)),
        ));
        i = i + 1;
    }
    times
}

fn relative_all(sh: &Shared, times: &Vec<u64>) -> (out: Vec<Millis>)
    ensures
        out@ == times@.map_values(|t: u64| relative(*sh, t)),
{
    let mut out: Vec<Millis> = Vec::new();
    let mut i: usize = 0;
    while i < times.len()
        invariant
            i <= times@.len(),
            out@ == times@.take(i as int).map_values(|t: u64| relative(*sh, t)),
        decreases times@.len() - i,
    {
        out.push(sh.rel_ms(times[i]));
        assert(out@ =~= times@.take(i + 1).map_values(|t: u64| relative(*sh, t)));
        i = i + 1;
    }
    assert(times@.take(times@.len() as int) =~= times@);
    out
}

/// Everything that is exported of a session.
pub fn session_report(sh: &Shared, now_ns: u64) -> (r: SessionReport)
    ensures
        r.duration_ms.ns == sh.duration_ns(now_ns),
        r.rig_latency_ms == sh.devices.rig_latency(),
        summary_of(r.response_latency_ms, confirmed_latencies(sh.turns@)),
        r.turns@.len() == sh.turns@.len(),
        forall|i: int|
            0 <= i < r.turns@.len() ==> turn_row_of(#[trigger] r.turns@[i], *sh, sh.turns@[i]),
        r.interruptions@.len() == sh.interruptions@.len(),
        forall|i: int|
            0 <= i < r.interruptions@.len() ==> interruption_row_of(
                #[trigger] r.interruptions@[i],
                *sh,
                sh.interruptions@[i],
            ),
        r.mic_blocks@ == block_rows_of(*sh, sh.lanes[0].blocks@),
        r.mic_speech@ == block_rows_of(*sh, sh.lanes[0].speech@),
        r.system_blocks@ == block_rows_of(*sh, sh.lanes[1].blocks@),
        r.event_ms@ == Seq::new(
            sh.events@.len(),
            |i: int| relative(*sh, shifted(sh.events@[i].t_ns, sh.cfg.rtvi_offset_ms)),
        ),
        r.discontinuities_ms@ == sh.discontinuities@.map_values(|t: u64| relative(*sh, t)),
{
    let latencies = sh.valid_latencies();
    SessionReport {
        duration_ms: sh.session_duration_ms(now_ns),
        rig_latency_ms: sh.devices.rig_latency_ms(),
        response_latency_ms: summarize(latencies.as_slice()),
        turns: turn_rows(sh),
        interruptions: interruption_rows(sh),
        mic_blocks: block_rows(sh, &sh.lanes[LANE_MIC].blocks),
        mic_speech: block_rows(sh, &sh.lanes[LANE_MIC].speech),
        system_blocks: block_rows(sh, &sh.lanes[LANE_SYS].blocks),
        event_ms: event_times(sh),
        discontinuities_ms: relative_all(sh, &sh.discontinuities),
    }
}

/// A moment is exported as the time since the session's start, and one before it
/// as the start itself; a moment that is not known stays unknown.
pub proof fn law_times_are_relative_to_the_start(sh: Shared, t_ns: u64)
    ensures
        sh.session_start_ns <= t_ns ==> sh.session_start_ns + relative(sh, t_ns).ns == t_ns,
        sh.session_start_ns > t_ns ==> relative(sh, t_ns).ns == 0,
        relative_opt(sh, Some(t_ns)) == Some(relative(sh, t_ns)),
        relative_opt(sh, None) is None,
{
}

/// A perceived latency is the measured one with what the rig adds; it is unknown
/// while either is.
pub proof fn law_perceived_adds_the_rig(latency: Millis, rig: Millis)
    ensures
        latency.ns + rig.ns <= u64::MAX ==> perceived(Some(latency), Some(rig)) == Some(
            Millis { ns: (latency.ns + rig.ns) as u64 },
        ),
        perceived(None, Some(rig)) is None,
        perceived(Some(latency), None) is None,
        perceived(None, None) is None,
{
}

/// A turn is exported with its own index, times, latency, response time and
/// flags.
pub proof fn law_turn_row_holds_the_turn(row: TurnRow, sh: Shared, t: TurnRecord)
    requires
        turn_row_of(row, sh, t),
    ensures
        row.index == t.index,
        row.user_start_ms == relative_opt(sh, t.user_start_ns),
        row.user_end_ms == relative_opt(sh, t.user_end_ns),
        row.bot_onset_ms == relative(sh, t.bot_onset_ns),
        row.bot_group_end_ms == relative_opt(sh, t.bot_group_end_ns),
        row.latency_ms == t.latency_ms,
        row.perceived_latency_ms == perceived(t.latency_ms, sh.devices.rig_latency()),
        row.user_response_ms == t.user_response_ms,
        row.provisional == t.provisional,
        row.flags == t.flags,
{
}

/// The deltas of a turn: how late the framework heard the utterance end, and how
/// late the audio came out after the framework said the bot had started.
pub proof fn law_turn_row_holds_the_deltas(row: TurnRow, sh: Shared, t: TurnRecord)
    requires
        turn_row_of(row, sh, t),
    ensures
        t.user_end_ns is None ==> row.rtvi.vad_stop_delta_ms is None,
        t.user_end_ns is Some ==> delta_value(row.rtvi.vad_stop_delta_ms) == nearest_delta(
            sh.events@,
            "user_stopped_speaking"@,
            t.user_end_ns->0,
            sh.cfg.rtvi_offset_ms,
        ),
        ({
            let started = nearest_delta(
                sh.events@,
                "bot_started_speaking"@,
                t.bot_onset_ns,
                sh.cfg.rtvi_offset_ms,
            );
            &&& started is None <==> row.rtvi.bot_start_delta_ms is None
            &&& started is Some ==> row.rtvi.bot_start_delta_ms->0.ns == -started->0
        }),
{
}

/// An interruption is exported with its own times, and with how late the
/// framework registered it.
pub proof fn law_interruption_row_holds_the_interruption(
    row: InterruptionRow,
    sh: Shared,
    i: InterruptionRecord,
)
    requires
        interruption_row_of(row, sh, i),
    ensures
        row.mic_open_ms == relative(sh, i.mic_open_ns),
        row.sys_stop_ms == relative_opt(sh, i.sys_stop_ns),
        row.stop_ms == i.stop_ms,
        delta_value(row.register_ms) == nearest_delta(
            sh.events@,
            "user_started_speaking"@,
            i.mic_open_ns,
            sh.cfg.rtvi_offset_ms,
        ),
{
}

/// Blocks are exported one for one, in order, from start to end.
pub proof fn law_blocks_are_exported_in_order(sh: Shared, blocks: Seq<Block>, i: int)
    requires
        0 <= i < blocks.len(),
    ensures
        block_rows_of(sh, blocks).len() == blocks.len(),
        block_rows_of(sh, blocks)[i].start_ms == relative(sh, blocks[i].start_ns),
        block_rows_of(sh, blocks)[i].end_ms == relative(sh, blocks[i].end_ns),
{
}

} // verus!
