//! The panel shown while a session runs.

use vstd::prelude::*;
use vstd::string::StringExecFns;
use crate::analysis::turns::{InterruptionRecord, TurnRecord};
use crate::millis::Millis;
use crate::session::Shared;
use crate::text::{chars_of, decimal, decimal_text, string_of};

verus! {

/// The latest latency measured.
pub open spec fn latest_latency(turns: Seq<TurnRecord>) -> Option<Millis>
    decreases turns.len(),
{
    if turns.len() == 0 {
        None
    } else if turns.last().latency_ms is Some {
        turns.last().latency_ms
    } else {
        latest_latency(turns.drop_last())
    }
}

/// The latest time that the bot took to stop.
pub open spec fn latest_stop(interruptions: Seq<InterruptionRecord>) -> Option<Millis>
    decreases interruptions.len(),
{
    if interruptions.len() == 0 {
        None
    } else if interruptions.last().stop_ms is Some {
        interruptions.last().stop_ms
    } else {
        latest_stop(interruptions.drop_last())
    }
}

/// How many turns carry a flag.
pub open spec fn flagged(turns: Seq<TurnRecord>) -> nat
    decreases turns.len(),
{
    if turns.len() == 0 {
        0
    } else {
        let f = turns.last().flags;
        flagged(turns.drop_last()) + if f.barge_in || f.double_talk || f.no_user_speech
            || f.after_discontinuity {
            1nat
        } else {
            0nat
        }
    }
}

/// The headline: the latest latency measured.
#[verifier::loop_isolation(false)]
pub fn last_latency(sh: &Shared) -> (l: Option<Millis>)
    ensures
        l == latest_latency(sh.turns@),
        l is None <==> forall|i: int|
            0 <= i < sh.turns@.len() ==> (#[trigger] sh.turns@[i]).latency_ms is None,
        forall|i: int|
            0 <= i < sh.turns@.len() && (#[trigger] sh.turns@[i]).latency_ms is Some && (forall|
                j: int,
            |
                i < j < sh.turns@.len() ==> (#[trigger] sh.turns@[j]).latency_ms is None) ==> l
                == sh.turns@[i].latency_ms,
{
    proof {
        law_no_latency_without_a_measured_turn(sh.turns@);
        assert forall|i: int|
            0 <= i < sh.turns@.len() && (#[trigger] sh.turns@[i]).latency_ms is Some && (forall|
                j: int,
            |
                i < j < sh.turns@.len() ==> (
                #[trigger] sh.turns@[j]).latency_ms is None) implies latest_latency(sh.turns@)
            == sh.turns@[i].latency_ms by {
            law_headline_is_the_last_measured_turn(sh.turns@, i);
        }
    }
    let mut n: usize = sh.turns.len();
    assert(sh.turns@.take(n as int) =~= sh.turns@);
    while n > 0
        invariant
            n <= sh.turns@.len(),
            latest_latency(sh.turns@) == latest_latency(sh.turns@.take(n as int)),
        decreases n,
    {
        if let Some(l) = sh.turns[n - 1].latency_ms {
            return Some(l);
        }
        assert(sh.turns@.take(n as int).drop_last() =~= sh.turns@.take(n - 1));
        n = n - 1;
    }
    None
}

/// The latest time that the bot took to stop when interrupted.
#[verifier::loop_isolation(false)]
pub fn last_stop(sh: &Shared) -> (l: Option<Millis>)
    ensures
        l == latest_stop(sh.interruptions@),
        l is None <==> forall|i: int|
            0 <= i < sh.interruptions@.len() ==> (#[trigger] sh.interruptions@[i]).stop_ms is None,
        forall|i: int|
            0 <= i < sh.interruptions@.len() && (#[trigger] sh.interruptions@[i]).stop_ms is Some
                && (forall|j: int|
                i < j < sh.interruptions@.len() ==> (
                #[trigger] sh.interruptions@[j]).stop_ms is None) ==> l
                == sh.interruptions@[i].stop_ms,
{
    proof {
        law_no_stop_without_a_measured_interruption(sh.interruptions@);
        assert forall|i: int|
            0 <= i < sh.interruptions@.len() && (#[trigger] sh.interruptions@[i]).stop_ms is Some
                && (forall|j: int|
                i < j < sh.interruptions@.len() ==> (
                #[trigger] sh.interruptions@[j]).stop_ms is None) implies latest_stop(
            sh.interruptions@,
        ) == sh.interruptions@[i].stop_ms by {
            law_last_stop_is_the_last_measured_one(sh.interruptions@, i);
        }
    }
    let mut n: usize = sh.interruptions.len();
    assert(sh.interruptions@.take(n as int) =~= sh.interruptions@);
    while n > 0
        invariant
            n <= sh.interruptions@.len(),
            latest_stop(sh.interruptions@) == latest_stop(sh.interruptions@.take(n as int)),
        decreases n,
    {
        if let Some(l) = sh.interruptions[n - 1].stop_ms {
            return Some(l);
        }
        assert(sh.interruptions@.take(n as int).drop_last() =~= sh.interruptions@.take(n - 1));
        n = n - 1;
    }
    None
}

/// How many turns carry a flag.
pub fn flagged_turns(sh: &Shared) -> (n: usize)
    ensures
        n == flagged(sh.turns@),
{
    let mut n: usize = 0;
    let mut i: usize = 0;
    while i < sh.turns.len()
        invariant
            n <= i <= sh.turns@.len(),
            n == flagged(sh.turns@.take(i as int)),
        decreases sh.turns@.len() - i,
    {
        assert(sh.turns@.take(i + 1).drop_last() =~= sh.turns@.take(i as int));
        if sh.turns[i].flags.any() {
            n = n + 1;
        }
        i = i + 1;
    }
    assert(sh.turns@.take(sh.turns@.len() as int) =~= sh.turns@);
    n
}

/// The state of the bridge in words.
pub open spec fn bridge_text(sh: Shared) -> Seq<char> {
    if !sh.cfg.bridge.enabled {
        "disabled"@
    } else if !sh.bridge.running {
        match sh.bridge.error {
            Some(e) => e@,
            None => "not running"@,
        }
    } else {
        "ws://localhost:"@ + decimal_text(sh.bridge.port as nat) + " \u{2014} "@ + decimal_text(
            sh.bridge.clients as nat,
        ) + (if sh.bridge.clients == 1 {
            " client"@
        } else {
            " clients"@
        })
    }
}

/// The state of the bridge in words, and whether it is a failure.
pub fn bridge_line(sh: &Shared) -> (line: (String, bool))
    ensures
        line.0@ == bridge_text(*sh),
        line.1 == (sh.cfg.bridge.enabled && !sh.bridge.running),
{
    if !sh.cfg.bridge.enabled {
        return (String::from_str("disabled"), false);
    }
    if !sh.bridge.running {
        let text = match &sh.bridge.error {
            Some(e) => e.clone(),
            None => String::from_str("not running"),
        };
        return (text, true);
    }
    let mut text = String::from_str("ws://localhost:");
    let port = decimal(sh.bridge.port as u128);
    text.append(port.as_str());
    text.append(" \u{2014} ");
    let clients = decimal(sh.bridge.clients as u128);
    text.append(clients.as_str());
    if sh.bridge.clients == 1 {
        text.append(" client");
    } else {
        text.append(" clients");
    }
    (text, false)
}

/// The text in at most `n` characters: cut short, its last character is an
/// ellipsis.
pub open spec fn truncated(text: Seq<char>, n: int) -> Seq<char> {
    if text.len() <= n {
        text
    } else {
        text.take(if n > 0 {
            n - 1
        } else {
            0
        }).push('\u{2026}')
    }
}

/// The text in at most `n` characters.
pub fn truncate(s: &str, n: usize) -> (t: String)
    ensures
        t@ == truncated(s@, n as int),
{
    let chars = chars_of(s);
    if chars.len() <= n {
        return string_of(&chars);
    }
    let kept: usize = n.saturating_sub(1);
    let mut out: Vec<char> = Vec::new();
    let mut i: usize = 0;
    while i < kept
        invariant
            i <= kept <= chars@.len(),
            out@ == chars@.take(i as int),
        decreases kept - i,
    {
        out.push(chars[i]);
        assert(out@ =~= chars@.take(i + 1));
        i = i + 1;
    }
    out.push('\u{2026}');
    string_of(&out)
}

/// The headline is the latency of the last turn that has one, whatever came
/// before it and however many turns without one follow.
pub proof fn law_headline_is_the_last_measured_turn(turns: Seq<TurnRecord>, i: int)
    requires
        0 <= i < turns.len(),
        turns[i].latency_ms is Some,
        forall|j: int| i < j < turns.len() ==> (#[trigger] turns[j]).latency_ms is None,
    ensures
        latest_latency(turns) == turns[i].latency_ms,
    decreases turns.len(),
{
    assert(turns.last() == turns[turns.len() - 1]);
    if i < turns.len() - 1 {
        let rest = turns.drop_last();
        assert forall|j: int| i < j < rest.len() implies (
        #[trigger] rest[j]).latency_ms is None by {
            assert(rest[j] == turns[j]);
        }
        law_headline_is_the_last_measured_turn(rest, i);
    }
}

/// There is no headline exactly while no turn has a latency.
pub proof fn law_no_latency_without_a_measured_turn(turns: Seq<TurnRecord>)
    ensures
        latest_latency(turns) is None <==> forall|i: int|
            0 <= i < turns.len() ==> (#[trigger] turns[i]).latency_ms is None,
    decreases turns.len(),
{
    if turns.len() > 0 {
        let rest = turns.drop_last();
        let n = turns.len() - 1;
        law_no_latency_without_a_measured_turn(rest);
        assert(turns[n] == turns.last());
        if forall|i: int| 0 <= i < rest.len() ==> (#[trigger] rest[i]).latency_ms is None {
            assert forall|i: int| 0 <= i < n implies (#[trigger] turns[i]).latency_ms is None by {
                assert(rest[i] == turns[i]);
            }
        } else {
            let i = choose|i: int| 0 <= i < rest.len() && (#[trigger] rest[i]).latency_ms is Some;
            assert(turns[i] == rest[i]);
        }
    }
}

/// The same of the time that the bot took to stop: the last one measured.
pub proof fn law_last_stop_is_the_last_measured_one(
    interruptions: Seq<InterruptionRecord>,
    i: int,
)
    requires
        0 <= i < interruptions.len(),
        interruptions[i].stop_ms is Some,
        forall|j: int|
            i < j < interruptions.len() ==> (#[trigger] interruptions[j]).stop_ms is None,
    ensures
        latest_stop(interruptions) == interruptions[i].stop_ms,
    decreases interruptions.len(),
{
    assert(interruptions.last() == interruptions[interruptions.len() - 1]);
    if i < interruptions.len() - 1 {
        let rest = interruptions.drop_last();
        assert forall|j: int| i < j < rest.len() implies (#[trigger] rest[j]).stop_ms is None by {
            assert(rest[j] == interruptions[j]);
        }
        law_last_stop_is_the_last_measured_one(rest, i);
    }
}

/// There is none exactly while no interruption has one.
pub proof fn law_no_stop_without_a_measured_interruption(interruptions: Seq<InterruptionRecord>)
    ensures
        latest_stop(interruptions) is None <==> forall|i: int|
            0 <= i < interruptions.len() ==> (#[trigger] interruptions[i]).stop_ms is None,
    decreases interruptions.len(),
{
    if interruptions.len() > 0 {
        let rest = interruptions.drop_last();
        let n = interruptions.len() - 1;
        law_no_stop_without_a_measured_interruption(rest);
        assert(interruptions[n] == interruptions.last());
        if forall|i: int| 0 <= i < rest.len() ==> (#[trigger] rest[i]).stop_ms is None {
            assert forall|i: int| 0 <= i < n implies (
            #[trigger] interruptions[i]).stop_ms is None by {
                assert(rest[i] == interruptions[i]);
            }
        } else {
            let i = choose|i: int| 0 <= i < rest.len() && (#[trigger] rest[i]).stop_ms is Some;
            assert(interruptions[i] == rest[i]);
        }
    }
}

/// A further turn counts once if it carries any of the four flags, whichever and
/// however many, and not at all if it carries none.
pub proof fn law_each_flagged_turn_counts_once(turns: Seq<TurnRecord>, turn: TurnRecord)
    ensures
        flagged(Seq::<TurnRecord>::empty()) == 0,
        turn.flags.barge_in || turn.flags.double_talk || turn.flags.no_user_speech
            || turn.flags.after_discontinuity ==> flagged(turns.push(turn)) == flagged(turns) + 1,
        !turn.flags.barge_in && !turn.flags.double_talk && !turn.flags.no_user_speech
            && !turn.flags.after_discontinuity ==> flagged(turns.push(turn)) == flagged(turns),
{
    assert(turns.push(turn).drop_last() =~= turns);
}

/// The line names the failure, or says that there is nothing to name; a bridge
/// that is switched off shows neither.
pub proof fn law_bridge_line_when_not_serving(sh: Shared)
    ensures
        !sh.cfg.bridge.enabled ==> bridge_text(sh) == "disabled"@,
        sh.cfg.bridge.enabled && !sh.bridge.running && sh.bridge.error is None ==> bridge_text(sh)
            == "not running"@,
        sh.cfg.bridge.enabled && !sh.bridge.running && sh.bridge.error is Some ==> bridge_text(sh)
            == sh.bridge.error->0@,
{
}

/// A serving bridge shows its address and how many clients it has, in the
/// singular for exactly one.
pub proof fn law_bridge_line_when_serving(sh: Shared)
    requires
        sh.cfg.bridge.enabled,
        sh.bridge.running,
    ensures
        sh.bridge.clients == 1 ==> bridge_text(sh) == "ws://localhost:"@ + decimal_text(
            sh.bridge.port as nat,
        ) + " \u{2014} "@ + decimal_text(1) + " client"@,
        sh.bridge.clients != 1 ==> bridge_text(sh) == "ws://localhost:"@ + decimal_text(
            sh.bridge.port as nat,
        ) + " \u{2014} "@ + decimal_text(sh.bridge.clients as nat) + " clients"@,
{
}

/// A text that fits is shown as it is; one that does not keeps as much of its
/// start as fits before the ellipsis.
pub proof fn law_truncated_text_fits(text: Seq<char>, n: int)
    requires
        n > 0,
    ensures
        text.len() <= n ==> truncated(text, n) == text,
        text.len() > n ==> {
            &&& truncated(text, n).len() == n
            &&& truncated(text, n).last() == '\u{2026}'
            &&& forall|i: int| 0 <= i < n - 1 ==> truncated(text, n)[i] == text[i]
        },
{
}

} // verus!
