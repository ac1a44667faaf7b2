//! What the window does from frame to frame.

use vstd::prelude::*;
use vstd::string::StringExecFns;
use crate::millis::{span_ns, Millis, NS_PER_MS};
use crate::session::{Phase, Shared, SysStatus};
use crate::text::{decimal, decimal_text};
use crate::ui::controls::ControlsOutput;

verus! {

/// What is to be done with the session.
#[derive(Clone, Copy, Debug, PartialEq, Eq, Structural)]
pub enum SessionAction {
    Start,
    Stop,
    Nothing,
}

/// What the buttons and the space bar ask for.
pub open spec fn action_for(out: ControlsOutput, space: bool, phase: Phase) -> SessionAction {
    if out.start_clicked || space && phase != Phase::Running {
        SessionAction::Start
    } else if out.stop_clicked || space {
        SessionAction::Stop
    } else {
        SessionAction::Nothing
    }
}

/// What the buttons and the space bar ask for. The space bar starts a session,
/// or stops the one that runs.
pub fn session_action(out: &ControlsOutput, space: bool, phase: Phase) -> (action: SessionAction)
    ensures
        action == action_for(*out, space, phase),
{
    if out.start_clicked || (space && phase != Phase::Running) {
        SessionAction::Start
    } else if out.stop_clicked || (space && phase == Phase::Running) {
        SessionAction::Stop
    } else {
        SessionAction::Nothing
    }
}

/// By itself the space bar starts a session if none is running, and stops it
/// otherwise.
pub proof fn law_space_toggles(out: ControlsOutput, phase: Phase)
    requires
        !out.start_clicked,
        !out.stop_clicked,
    ensures
        action_for(out, true, phase) == if phase == Phase::Running {
            SessionAction::Stop
        } else {
            SessionAction::Start
        },
        action_for(out, false, phase) == SessionAction::Nothing,
{
}

/// Time until the next frame: meters and timeline are live, more so while a
/// session runs.
pub fn repaint_after_ms(phase: Phase) -> (ms: u64)
    ensures
        ms == if phase == Phase::Running {
            16u64
        } else {
            50u64
        },
{
    if phase == Phase::Running {
        16
    } else {
        50
    }
}

/// How long a message stays up.
pub const TOAST_MS: u64 = 5000;

/// Whether a message put up at `at_ns` is still shown.
pub fn toast_visible(at_ns: u64, now_ns: u64) -> (b: bool)
    ensures
        b == (span_ns(at_ns, now_ns) < TOAST_MS * NS_PER_MS),
{
    !Millis::between(at_ns, now_ns).at_least(TOAST_MS)
}

/// The problems to report, each in a line of its own.
pub open spec fn problem_texts(sh: Shared) -> Seq<Seq<char>> {
    let none = Seq::<Seq<char>>::empty();
    let dropped = sh.lanes[0].dropped + sh.lanes[1].dropped;
    (match sh.mic_status {
        Some(m) => none.push("mic: "@ + m@),
        None => none,
    }) + (match sh.sys_status {
        SysStatus::Error(e) => none.push("system audio: "@ + e@),
        _ => none,
    }) + (match sh.wav_error {
        Some(w) => none.push("wav: "@ + w@),
        None => none,
    }) + (if dropped > 0 {
        none.push(decimal_text(dropped as nat) + " samples dropped"@)
    } else {
        none
    })
}

/// The problems to report in the status bar.
pub fn problems(sh: &Shared) -> (lines: Vec<String>)
    ensures
        lines@.map_values(|l: String| l@) == problem_texts(*sh),
{
    let mut lines: Vec<String> = Vec::new();
    if let Some(m) = &sh.mic_status {
        let mut line = String::from_str("mic: ");
        line.append(m.as_str());
        lines.push(line);
    }
    if let SysStatus::Error(e) = &sh.sys_status {
        let mut line = String::from_str("system audio: ");
        line.append(e.as_str());
        lines.push(line);
    }
    if let Some(w) = &sh.wav_error {
        let mut line = String::from_str("wav: ");
        line.append(w.as_str());
        lines.push(line);
    }
    let dropped: u128 = sh.lanes[0].dropped as u128 + sh.lanes[1].dropped as u128;
    if dropped > 0 {
        let mut line = decimal(dropped);
        line.append(" samples dropped");
        lines.push(line);
    }
    assert(lines@.map_values(|l: String| l@) =~= problem_texts(*sh));
    lines
}

/// A click on a button asks for what the button says; starting comes first.
pub proof fn law_buttons_do_what_they_say(out: ControlsOutput, space: bool, phase: Phase)
    ensures
        out.start_clicked ==> action_for(out, space, phase) == SessionAction::Start,
        !out.start_clicked && out.stop_clicked && !space ==> action_for(out, space, phase)
            == SessionAction::Stop,
        !out.start_clicked && out.stop_clicked && phase == Phase::Running ==> action_for(
            out,
            space,
            phase,
        ) == SessionAction::Stop,
        action_for(out, space, phase) == SessionAction::Nothing <==> !out.start_clicked
            && !out.stop_clicked && !space,
{
}

/// A message stays up for five seconds.
pub proof fn law_message_stays_five_seconds()
    ensures
        TOAST_MS * NS_PER_MS == 5_000_000_000,
{
}

/// Each problem has a line exactly while there is one: the mic, system audio, the
/// recording, and samples dropped on both lanes together; in this order.
pub proof fn law_each_problem_is_reported(sh: Shared)
    ensures
        ({
            let dropped = sh.lanes[0].dropped + sh.lanes[1].dropped;
            let lines = problem_texts(sh);
            let mic: int = if sh.mic_status is Some {
                1
            } else {
                0
            };
            let sys: int = if sh.sys_status is Error {
                1
            } else {
                0
            };
            let wav: int = if sh.wav_error is Some {
                1
            } else {
                0
            };
            let drops: int = if dropped > 0 {
                1
            } else {
                0
            };
            &&& lines.len() == mic + sys + wav + drops
            &&& sh.mic_status is Some ==> lines[0] == "mic: "@ + sh.mic_status->0@
            &&& sh.sys_status is Error ==> lines[mic] == "system audio: "@
                + sh.sys_status->Error_0@
            &&& sh.wav_error is Some ==> lines[mic + sys] == "wav: "@ + sh.wav_error->0@
            &&& dropped > 0 ==> lines[mic + sys + wav] == decimal_text(dropped as nat)
                + " samples dropped"@
        }),
{
}

} // verus!
