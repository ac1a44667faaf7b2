//! Deltas between what the framework reported (RTVI events) and what the audio
//! shows.

use vstd::prelude::*;
use crate::analysis::turns::TurnRecord;
use crate::millis::SignedMillis;
use crate::session::{shifted, BridgeEvent};
use crate::text::same_text;

verus! {

/// How far, in nanoseconds, an event may be from the audio edge it describes.
pub const RTVI_MATCH_WINDOW_NS: i128 = 2_000_000_000;

/// Per-turn differences between framework belief and audio truth.
#[derive(Clone, Copy, Debug, PartialEq, Eq, Structural)]
pub struct RtviDeltas {
    /// `user_stopped_speaking` minus the measured end of user speech.
    pub vad_stop_delta_ms: Option<SignedMillis>,
    /// Measured bot onset minus `bot_started_speaking`.
    pub bot_start_delta_ms: Option<SignedMillis>,
}

/// How much later than `t_ns` an event happened.
pub open spec fn event_delta(e: BridgeEvent, t_ns: u64, offset: SignedMillis) -> int {
    shifted(e.t_ns, offset) - t_ns
}

pub open spec fn distance(d: int) -> int {
    if d < 0 {
        -d
    } else {
        d
    }
}

/// The event has the name asked for and lies within the match window.
pub open spec fn eligible(
    e: BridgeEvent,
    name: Seq<char>,
    t_ns: u64,
    offset: SignedMillis,
) -> bool {
    e.name@ == name && distance(event_delta(e, t_ns, offset)) <= RTVI_MATCH_WINDOW_NS
}

/// The delta of the eligible event nearest to `t_ns`, the earliest received of
/// those equally near.
pub open spec fn nearest_delta(
    events: Seq<BridgeEvent>,
    name: Seq<char>,
    t_ns: u64,
    offset: SignedMillis,
) -> Option<int>
    decreases events.len(),
{
    if events.len() == 0 {
        None
    } else {
        let best = nearest_delta(events.drop_last(), name, t_ns, offset);
        let d = event_delta(events.last(), t_ns, offset);
        if eligible(events.last(), name, t_ns, offset) && (best is None || distance(d) < distance(
            best->0,
        )) {
            Some(d)
        } else {
            best
        }
    }
}

/// An optional difference, as a whole number of nanoseconds.
pub open spec fn delta_value(d: Option<SignedMillis>) -> Option<int> {
    match d {
        Some(d) => Some(d.ns as int),
        None => None,
    }
}

/// The delta is that of an eligible event, none is nearer, and it is missing
/// only where no event is eligible.
pub proof fn law_nearest_event(
    events: Seq<BridgeEvent>,
    name: Seq<char>,
    t_ns: u64,
    offset: SignedMillis,
)
    ensures
        match nearest_delta(events, name, t_ns, offset) {
            Some(d) => {
                &&& exists|i: int|
                    0 <= i < events.len() && eligible(#[trigger] events[i], name, t_ns, offset)
                        && event_delta(events[i], t_ns, offset) == d
                &&& forall|i: int|
                    0 <= i < events.len() && eligible(#[trigger] events[i], name, t_ns, offset)
                        ==> distance(d) <= distance(event_delta(events[i], t_ns, offset))
            },
            None => forall|i: int|
                0 <= i < events.len() ==> !eligible(#[trigger] events[i], name, t_ns, offset),
        },
    decreases events.len(),
{
    if events.len() > 0 {
        let rest = events.drop_last();
        law_nearest_event(rest, name, t_ns, offset);
        assert(events.last() == events[events.len() - 1]);
        assert forall|i: int| 0 <= i < rest.len() implies #[trigger] rest[i] == events[i] by {}
        let best = nearest_delta(rest, name, t_ns, offset);
        match nearest_delta(events, name, t_ns, offset) {
            Some(d) => {
                if best == Some(d) && !(eligible(events.last(), name, t_ns, offset) && event_delta(
                    events.last(),
                    t_ns,
                    offset,
                ) == d) {
                    let k = choose|k: int|
                        0 <= k < rest.len() && eligible(#[trigger] rest[k], name, t_ns, offset)
                            && event_delta(rest[k], t_ns, offset) == d;
                    assert(events[k] == rest[k]);
                }
                assert forall|i: int|
                    0 <= i < events.len() && eligible(
                        #[trigger] events[i],
                        name,
                        t_ns,
                        offset,
                    ) implies distance(d) <= distance(event_delta(events[i], t_ns, offset)) by {
                    if i < rest.len() {
                        assert(rest[i] == events[i]);
                    }
                }
            },
            None => {
                assert forall|i: int| 0 <= i < events.len() implies !eligible(
                    #[trigger] events[i],
                    name,
                    t_ns,
                    offset,
                ) by {
                    if i < rest.len() {
                        assert(rest[i] == events[i]);
                    }
                }
            },
        }
    }
}

/// Without bridge events there are no deltas.
pub proof fn law_without_events_no_deltas(name: Seq<char>, t_ns: u64, offset: SignedMillis)
    ensures
        nearest_delta(Seq::empty(), name, t_ns, offset) is None,
{
}

fn nearest_event_delta(
    events: &Vec<BridgeEvent>,
    name: &str,
    t_ns: u64,
    offset: SignedMillis,
) -> (delta: Option<SignedMillis>)
    ensures
        delta_value(delta) == nearest_delta(events@, name@, t_ns, offset),
        delta matches Some(d) ==> -RTVI_MATCH_WINDOW_NS <= d.ns <= RTVI_MATCH_WINDOW_NS,
{
    let mut best: Option<SignedMillis> = None;
    let mut i: usize = 0;
    while i < events.len()
        invariant
            i <= events@.len(),
            delta_value(best) == nearest_delta(events@.take(i as int), name@, t_ns, offset),
            best matches Some(d) ==> -RTVI_MATCH_WINDOW_NS <= d.ns <= RTVI_MATCH_WINDOW_NS,
        decreases events@.len() - i,
    {
        assert(events@.take(i + 1).drop_last() =~= events@.take(i as int));
        let e = &events[i];
        let d: i128 = e.corrected_ns(offset) as i128 - t_ns as i128;
        let near: i128 = if d < 0 {
            -d
        } else {
            d
        };
        if near <= RTVI_MATCH_WINDOW_NS && same_text(e.name.as_str(), name) {
            let nearer = match best {
                Some(b) => {
                    let held: i64 = if b.ns < 0 {
                        -b.ns
                    } else {
                        b.ns
                    };
                    near < held as i128
                },
                None => true,
            };
            if nearer {
                best = Some(SignedMillis { ns: d as i64 });
            }
        }
        i = i + 1;
    }
    assert(events@.take(events@.len() as int) =~= events@);
    best
}

/// How long the framework took to register the interrupting mic audio: the
/// nearest `user_started_speaking` event relative to the mic onset.
pub fn interruption_register_ms(
    events: &Vec<BridgeEvent>,
    mic_open_ns: u64,
    offset: SignedMillis,
) -> (delta: Option<SignedMillis>)
    ensures
        delta_value(delta) == nearest_delta(
            events@,
            "user_started_speaking"@,
            mic_open_ns,
            offset,
        ),
{
    nearest_event_delta(events, "user_started_speaking", mic_open_ns, offset)
}

/// A turn's differences from the framework's events, each missing where no
/// event matches. The playout lag is positive when the audio came out after the
/// framework thought the bot started.
pub fn rtvi_deltas(turn: &TurnRecord, events: &Vec<BridgeEvent>, offset: SignedMillis) -> (deltas:
    RtviDeltas)
    ensures
        delta_value(deltas.vad_stop_delta_ms) == match turn.user_end_ns {
            Some(end) => nearest_delta(events@, "user_stopped_speaking"@, end, offset),
            None => None,
        },
        delta_value(deltas.bot_start_delta_ms) == match nearest_delta(
            events@,
            "bot_started_speaking"@,
            turn.bot_onset_ns,
            offset,
        ) {
            Some(d) => Some(-d),
            None => None,
        },
{
    let vad_stop_delta_ms = match turn.user_end_ns {
        Some(end) => nearest_event_delta(events, "user_stopped_speaking", end, offset),
        None => None,
    };
    let bot_start_delta_ms = match nearest_event_delta(
        events,
        "bot_started_speaking",
        turn.bot_onset_ns,
        offset,
    ) {
        Some(d) => Some(SignedMillis { ns: -d.ns }),
        None => None,
    };
    RtviDeltas { vad_stop_delta_ms, bot_start_delta_ms }
}

/// Event `i` is the one measured against: it has the name, lies `d` from `t_ns`,
/// two seconds at most, and of the others with the name within two seconds those
/// received before it lie farther away and those received after it no nearer.
pub open spec fn measured_against(
    events: Seq<BridgeEvent>,
    name: Seq<char>,
    t_ns: u64,
    offset: SignedMillis,
    i: int,
    d: int,
) -> bool {
    let size = if d < 0 {
        -d
    } else {
        d
    };
    &&& 0 <= i < events.len()
    &&& events[i].name@ == name
    &&& shifted(events[i].t_ns, offset) - t_ns == d
    &&& size <= 2_000_000_000
    &&& forall|j: int|
        0 <= j < events.len() && (#[trigger] events[j]).name@ == name ==> {
            let x = shifted(events[j].t_ns, offset) - t_ns;
            &&& j > i ==> x >= size || x <= -size
            &&& j < i ==> x > size || x < -size
        }
}

/// The delta is that of the nearest event of the name within two seconds, the
/// first received of those equally near; there is none exactly if there is no
/// such event.
pub proof fn law_nearest_named_event_counts(
    events: Seq<BridgeEvent>,
    name: Seq<char>,
    t_ns: u64,
    offset: SignedMillis,
)
    ensures
        nearest_delta(events, name, t_ns, offset) is Some ==> exists|i: int|
            #[trigger] measured_against(
                events,
                name,
                t_ns,
                offset,
                i,
                nearest_delta(events, name, t_ns, offset)->0,
            ),
        nearest_delta(events, name, t_ns, offset) is None <==> forall|i: int|
            0 <= i < events.len() && (#[trigger] events[i]).name@ == name ==> {
                let x = shifted(events[i].t_ns, offset) - t_ns;
                x > 2_000_000_000 || x < -2_000_000_000
            },
    decreases events.len(),
{
    if events.len() > 0 {
        let rest = events.drop_last();
        let n = events.len() - 1;
        law_nearest_named_event_counts(rest, name, t_ns, offset);
        assert(events[n] == events.last());
        assert forall|j: int| 0 <= j < n implies #[trigger] rest[j] == events[j] by {}
        let best = nearest_delta(rest, name, t_ns, offset);
        let d = event_delta(events.last(), t_ns, offset);
        let won = eligible(events.last(), name, t_ns, offset) && (best is None || distance(d)
            < distance(best->0));
        if won {
            if best is Some {
                let k = choose|k: int|
                    #[trigger] measured_against(rest, name, t_ns, offset, k, best->0);
                assert forall|j: int|
                    0 <= j < events.len() && (#[trigger] events[j]).name@ == name && j
                        < n implies ({
                    let x = shifted(events[j].t_ns, offset) - t_ns;
                    x > distance(d) || x < -distance(d)
                }) by {
                    assert(rest[j] == events[j]);
                }
            } else {
                assert forall|j: int|
                    0 <= j < events.len() && (#[trigger] events[j]).name@ == name && j
                        < n implies ({
                    let x = shifted(events[j].t_ns, offset) - t_ns;
                    x > distance(d) || x < -distance(d)
                }) by {
                    assert(rest[j] == events[j]);
                }
            }
            assert(measured_against(events, name, t_ns, offset, n, d));
        } else if best is Some {
            let k = choose|k: int| #[trigger] measured_against(rest, name, t_ns, offset, k, best->0);
            assert(rest[k] == events[k]);
            assert forall|j: int|
                0 <= j < events.len() && (#[trigger] events[j]).name@ == name implies ({
                let x = shifted(events[j].t_ns, offset) - t_ns;
                let size = distance(best->0);
                &&& j > k ==> x >= size || x <= -size
                &&& j < k ==> x > size || x < -size
            }) by {
                if j < n {
                    assert(rest[j] == events[j]);
                }
            }
            assert(measured_against(events, name, t_ns, offset, k, best->0));
        } else {
            assert forall|i: int|
                0 <= i < events.len() && (#[trigger] events[i]).name@ == name implies ({
                let x = shifted(events[i].t_ns, offset) - t_ns;
                x > 2_000_000_000 || x < -2_000_000_000
            }) by {
                if i < n {
                    assert(rest[i] == events[i]);
                }
            }
        }
        if nearest_delta(events, name, t_ns, offset) is Some {
            let i = choose|i: int|
                #[trigger] measured_against(
                    events,
                    name,
                    t_ns,
                    offset,
                    i,
                    nearest_delta(events, name, t_ns, offset)->0,
                );
            assert(events[i].name@ == name);
        }
    }
}

/// A difference that is there is its own number of nanoseconds.
pub proof fn law_delta_is_in_nanoseconds(d: Option<SignedMillis>)
    ensures
        d is None <==> delta_value(d) is None,
        d is Some ==> delta_value(d)->0 == d->0.ns,
{
}

} // verus!
