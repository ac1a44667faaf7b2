//! The panel shown once a session has stopped.

use vstd::prelude::*;
use crate::millis::{span_ns, NS_PER_MS};
use crate::session::Shared;

verus! {

/// What the user asked for among the results.
#[derive(Clone, Copy, Debug, PartialEq, Eq, Structural)]
pub struct ResultsOutput {
    pub zoom_to_turn: Option<usize>,
    pub export_json: bool,
    pub export_csv: bool,
    pub open_folder: bool,
    pub new_session: bool,
}

impl Default for ResultsOutput {
    fn default() -> (out: ResultsOutput)
        ensures
            out == (ResultsOutput {
                zoom_to_turn: None,
                export_json: false,
                export_csv: false,
                open_folder: false,
                new_session: false,
            }),
    {
        ResultsOutput {
            zoom_to_turn: None,
            export_json: false,
            export_csv: false,
            open_folder: false,
            new_session: false,
        }
    }
}

/// Number of histogram buckets for `n` values: one for every two, but no fewer
/// than 6 and no more than 24.
pub fn histogram_bins(n: usize) -> (bins: usize)
    ensures
        bins == if n / 2 < 6 {
            6
        } else if n / 2 > 24 {
            24
        } else {
            n / 2
        },
{
    let half: usize = n / 2;
    if half < 6 {
        6
    } else if half > 24 {
        24
    } else {
        half
    }
}

/// The tallest bucket.
pub fn tallest(counts: &Vec<usize>) -> (max: usize)
    ensures
        counts@.len() == 0 ==> max == 1,
        counts@.len() > 0 ==> counts@.contains(max),
        forall|i: int| 0 <= i < counts@.len() ==> #[trigger] counts@[i] <= max,
{
    if counts.len() == 0 {
        return 1;
    }
    let mut max: usize = counts[0];
    let mut i: usize = 1;
    assert(counts@[0] == max);
    while i < counts.len()
        invariant
            1 <= i <= counts@.len(),
            counts@.contains(max),
            forall|k: int| 0 <= k < i ==> #[trigger] counts@[k] <= max,
        decreases counts@.len() - i,
    {
        if counts[i] > max {
            max = counts[i];
            assert(counts@[i as int] == max);
        }
        i = i + 1;
    }
    max
}

/// A stretch of the timeline in nanoseconds since the session's start, possibly
/// beginning before it.
#[derive(Clone, Copy, Debug, PartialEq, Eq, Structural)]
pub struct ZoomSpan {
    pub start_ns: i128,
    pub end_ns: i128,
}

/// The stretch of a turn: from the end of the utterance, or a second before the
/// response where there is none, to the end of the response as far as known.
pub fn zoom_span(sh: &Shared, idx: usize) -> (span: Option<ZoomSpan>)
    ensures
        span is Some <==> idx < sh.turns@.len(),
        span matches Some(s) ==> {
            let t = sh.turns@[idx as int];
            &&& s.start_ns == match t.user_end_ns {
                Some(end) => span_ns(sh.session_start_ns, end) as int,
                None => span_ns(sh.session_start_ns, t.bot_onset_ns) - 1000 * NS_PER_MS,
            }
            &&& s.end_ns == span_ns(
                sh.session_start_ns,
                match t.bot_group_end_ns {
                    Some(end) => end,
                    None => t.bot_onset_ns,
                },
            )
        },
{
    if idx >= sh.turns.len() {
        return None;
    }
    let t = sh.turns[idx];
    let start_ns: i128 = match t.user_end_ns {
        Some(end) => sh.rel_ms(end).ns as i128,
        None => sh.rel_ms(t.bot_onset_ns).ns as i128 - 1_000_000_000,
    };
    let end_ns: i128 = sh.rel_ms(t.bot_group_end_ns.unwrap_or(t.bot_onset_ns)).ns as i128;
    Some(ZoomSpan { start_ns, end_ns })
}

} // verus!
