//! What the panels show, worked out from the shared state: colours, flashes,
//! which events are listed. Drawing is up to the caller.

use vstd::prelude::*;
use crate::audio::LANE_MIC;
use crate::config::EventFilterConfig;
use crate::millis::{span_ns, Millis, NS_PER_MS};
use crate::protocol::{categorize, category_of, EventCategory};
use crate::session::{BridgeEvent, Phase, Shared};

pub mod controls;
pub mod live_metrics;
pub mod results;
pub mod timeline;

verus! {

/// A colour.
#[derive(Clone, Copy, Debug, PartialEq, Eq, Structural)]
pub struct Rgb {
    pub r: u8,
    pub g: u8,
    pub b: u8,
}

impl Rgb {
    pub open spec fn of(r: u8, g: u8, b: u8) -> Rgb {
        Rgb { r, g, b }
    }

    pub fn new(r: u8, g: u8, b: u8) -> (c: Rgb)
        ensures
            c == Rgb::of(r, g, b),
    {
        Rgb { r, g, b }
    }
}

/// How good a measurement is. One language of colours for latencies, meters
/// and errors.
#[derive(Clone, Copy, Debug, PartialEq, Eq, Structural)]
pub enum Grade {
    Good,
    Borderline,
    Bad,
}

impl Grade {
    pub open spec fn shade(self) -> Rgb {
        match self {
            Grade::Good => Rgb::of(56, 166, 87),
            Grade::Borderline => Rgb::of(219, 158, 0),
            Grade::Bad => Rgb::of(214, 72, 61),
        }
    }

    pub fn color(self) -> (c: Rgb)
        ensures
            c == self.shade(),
    {
        match self {
            Grade::Good => Rgb::new(56, 166, 87),
            Grade::Borderline => Rgb::new(219, 158, 0),
            Grade::Bad => Rgb::new(214, 72, 61),
        }
    }
}

/// A response under half a second is good, one over a second is bad.
pub open spec fn latency_grade(latency: Millis) -> Grade {
    if latency.ns < 500 * NS_PER_MS {
        Grade::Good
    } else if latency.ns < 1000 * NS_PER_MS {
        Grade::Borderline
    } else {
        Grade::Bad
    }
}

/// The colour of a latency.
pub fn latency_color(latency: Millis) -> (c: Rgb)
    ensures
        c == latency_grade(latency).shade(),
{
    if latency.ns < 500_000_000 {
        Grade::Good.color()
    } else if latency.ns < 1_000_000_000 {
        Grade::Borderline.color()
    } else {
        Grade::Bad.color()
    }
}

/// The colours of a lane.
#[derive(Clone, Copy, Debug, PartialEq, Eq, Structural)]
pub struct LanePalette {
    pub fill: Rgb,
    pub bar: Rgb,
    pub label: Rgb,
}

/// Greens for the mic, blues for the system lane.
pub open spec fn palette_of(dark: bool, lane: usize) -> LanePalette {
    if lane == LANE_MIC {
        if dark {
            LanePalette {
                fill: Rgb::of(42, 62, 32),
                bar: Rgb::of(174, 213, 129),
                label: Rgb::of(174, 213, 129),
            }
        } else {
            LanePalette {
                fill: Rgb::of(220, 237, 200),
                bar: Rgb::of(51, 105, 30),
                label: Rgb::of(85, 139, 47),
            }
        }
    } else if dark {
        LanePalette {
            fill: Rgb::of(28, 42, 70),
            bar: Rgb::of(144, 180, 250),
            label: Rgb::of(144, 180, 250),
        }
    } else {
        LanePalette {
            fill: Rgb::of(219, 234, 254),
            bar: Rgb::of(48, 79, 158),
            label: Rgb::of(59, 91, 165),
        }
    }
}

pub fn lane_palette(dark: bool, lane: usize) -> (p: LanePalette)
    ensures
        p == palette_of(dark, lane),
{
    if lane == LANE_MIC {
        if dark {
            LanePalette {
                fill: Rgb::new(42, 62, 32),
                bar: Rgb::new(174, 213, 129),
                label: Rgb::new(174, 213, 129),
            }
        } else {
            LanePalette {
                fill: Rgb::new(220, 237, 200),
                bar: Rgb::new(51, 105, 30),
                label: Rgb::new(85, 139, 47),
            }
        }
    } else if dark {
        LanePalette {
            fill: Rgb::new(28, 42, 70),
            bar: Rgb::new(144, 180, 250),
            label: Rgb::new(144, 180, 250),
        }
    } else {
        LanePalette {
            fill: Rgb::new(219, 234, 254),
            bar: Rgb::new(48, 79, 158),
            label: Rgb::new(59, 91, 165),
        }
    }
}

/// Fill and accent of interruption blocks in the row between the lanes.
pub fn interruption_colors(dark: bool) -> (c: (Rgb, Rgb))
    ensures
        c == if dark {
            (Rgb::of(74, 62, 16), Rgb::of(250, 204, 21))
        } else {
            (Rgb::of(253, 230, 138), Rgb::of(146, 107, 0))
        },
{
    if dark {
        (Rgb::new(74, 62, 16), Rgb::new(250, 204, 21))
    } else {
        (Rgb::new(253, 230, 138), Rgb::new(146, 107, 0))
    }
}

/// The colour of an event category.
pub open spec fn category_shade(cat: EventCategory) -> Rgb {
    match cat {
        EventCategory::User => Rgb::of(76, 175, 80),
        EventCategory::Bot => Rgb::of(66, 133, 244),
        EventCategory::Tts => Rgb::of(255, 152, 0),
        EventCategory::Llm => Rgb::of(171, 71, 188),
        EventCategory::Stt => Rgb::of(0, 150, 136),
        EventCategory::Metrics => Rgb::of(140, 140, 140),
        EventCategory::Other => Rgb::of(233, 30, 99),
    }
}

pub fn category_color(cat: EventCategory) -> (c: Rgb)
    ensures
        c == category_shade(cat),
{
    match cat {
        EventCategory::User => Rgb::new(76, 175, 80),
        EventCategory::Bot => Rgb::new(66, 133, 244),
        EventCategory::Tts => Rgb::new(255, 152, 0),
        EventCategory::Llm => Rgb::new(171, 71, 188),
        EventCategory::Stt => Rgb::new(0, 150, 136),
        EventCategory::Metrics => Rgb::new(140, 140, 140),
        EventCategory::Other => Rgb::new(233, 30, 99),
    }
}

/// No two categories share a colour.
pub proof fn law_categories_differ_in_colour(a: EventCategory, b: EventCategory)
    ensures
        category_shade(a) == category_shade(b) ==> a == b,
{
}

/// Positions of the events that the filter lets through, in order.
pub open spec fn shown(events: Seq<BridgeEvent>, filter: EventFilterConfig) -> Seq<usize>
    decreases events.len(),
{
    if events.len() == 0 {
        Seq::empty()
    } else {
        let before = shown(events.drop_last(), filter);
        if filter.shows(category_of(events.last().name@)) {
            before.push((events.len() - 1) as usize)
        } else {
            before
        }
    }
}

/// Positions of the events to list and to mark on the timeline.
pub fn shown_events(sh: &Shared) -> (indices: Vec<usize>)
    ensures
        indices@ == shown(sh.events@, sh.cfg.event_filter),
{
    let mut indices: Vec<usize> = Vec::new();
    let mut i: usize = 0;
    while i < sh.events.len()
        invariant
            i <= sh.events@.len(),
            indices@ == shown(sh.events@.take(i as int), sh.cfg.event_filter),
        decreases sh.events@.len() - i,
    {
        assert(sh.events@.take(i + 1).drop_last() =~= sh.events@.take(i as int));
        if sh.cfg.event_filter.enabled(categorize(sh.events[i].name.as_str())) {
            indices.push(i);
        }
        i = i + 1;
    }
    assert(sh.events@.take(sh.events@.len() as int) =~= sh.events@);
    indices
}

/// An event is listed exactly if its category is switched on.
pub proof fn law_filter_decides_what_is_shown(
    events: Seq<BridgeEvent>,
    filter: EventFilterConfig,
    i: usize,
)
    requires
        i < events.len() <= usize::MAX,
    ensures
        shown(events, filter).contains(i) <==> filter.shows(category_of(events[i as int].name@)),
    decreases events.len(),
{
    let rest = events.drop_last();
    let before = shown(rest, filter);
    let after = shown(events, filter);
    lemma_shown_in_range(rest, filter);
    if i < rest.len() {
        law_filter_decides_what_is_shown(rest, filter, i);
        assert(rest[i as int] == events[i as int]);
        if before.contains(i) {
            let k = choose|k: int| 0 <= k < before.len() && before[k] == i;
            assert(after[k] == i);
        }
        if after.contains(i) {
            let k = choose|k: int| 0 <= k < after.len() && after[k] == i;
            assert(k < before.len());
            assert(before[k] == i);
        }
    } else {
        assert(events[i as int] == events.last());
        if filter.shows(category_of(events.last().name@)) {
            assert(after.last() == i);
        } else if after.contains(i) {
            let k = choose|k: int| 0 <= k < after.len() && after[k] == i;
            assert(before[k] < rest.len());
        }
    }
}

proof fn lemma_shown_in_range(events: Seq<BridgeEvent>, filter: EventFilterConfig)
    requires
        events.len() <= usize::MAX,
    ensures
        forall|k: int|
            0 <= k < shown(events, filter).len() ==> #[trigger] shown(events, filter)[k]
                < events.len(),
    decreases events.len(),
{
    if events.len() > 0 {
        lemma_shown_in_range(events.drop_last(), filter);
        let before = shown(events.drop_last(), filter);
        let after = shown(events, filter);
        assert forall|k: int| 0 <= k < after.len() implies #[trigger] after[k] < events.len() by {
            if k < before.len() {
                assert(after[k] == before[k]);
            }
        }
    }
}

/// The flash of a lane.
#[derive(Clone, Copy, Debug, PartialEq, Eq, Structural)]
pub struct LaneFlash {
    /// The lane was active at the last frame.
    pub prev_open: bool,
    /// When the lane last became the active speaker.
    pub flash_ns: Option<u64>,
}

/// Transient visual effects: lane flashes on speaker switches and a pulse on the
/// headline latency when a new turn is measured. They are derived from the
/// shared state and never feed back into it.
#[derive(Clone, Copy, Debug, PartialEq, Eq, Structural)]
pub struct Effects {
    pub mic: LaneFlash,
    pub sys: LaneFlash,
    pub last_speaker: Option<usize>,
    pub turn_flash_ns: Option<u64>,
    pub last_turn_count: usize,
}

/// How long a lane flashes.
pub const LANE_FLASH_MS: u64 = 650;

/// How long the headline pulses.
pub const TURN_FLASH_MS: u64 = 900;

/// A fraction between zero and one.
#[derive(Clone, Copy, Debug, PartialEq, Eq, Structural)]
pub struct Intensity {
    pub num: u128,
    pub den: u128,
}

impl Default for Effects {
    fn default() -> (e: Effects)
        ensures
            e == (Effects {
                mic: LaneFlash { prev_open: false, flash_ns: None },
                sys: LaneFlash { prev_open: false, flash_ns: None },
                last_speaker: None,
                turn_flash_ns: None,
                last_turn_count: 0,
            }),
    {
        let dark = LaneFlash { prev_open: false, flash_ns: None };
        Effects {
            mic: dark,
            sys: dark,
            last_speaker: None,
            turn_flash_ns: None,
            last_turn_count: 0,
        }
    }
}

/// The flash of a lane after a frame, and the last speaker. A lane flashes when
/// it becomes active and the other lane was the last to.
pub open spec fn flash_step(
    f: LaneFlash,
    last_speaker: Option<usize>,
    lane: usize,
    open: bool,
    now_ns: u64,
) -> (LaneFlash, Option<usize>) {
    let rising = open && !f.prev_open;
    (
        LaneFlash {
            prev_open: open,
            flash_ns: if rising && last_speaker != Some(lane) {
                Some(now_ns)
            } else {
                f.flash_ns
            },
        },
        if rising {
            Some(lane)
        } else {
            last_speaker
        },
    )
}

/// A lane flashes exactly on a speaker switch: when it becomes active and was
/// not the last to speak.
pub proof fn law_only_speaker_switches_flash(
    f: LaneFlash,
    last_speaker: Option<usize>,
    lane: usize,
    open: bool,
    now_ns: u64,
)
    ensures
        last_speaker == Some(lane) || !open || f.prev_open ==> flash_step(
            f,
            last_speaker,
            lane,
            open,
            now_ns,
        ).0.flash_ns == f.flash_ns,
        last_speaker != Some(lane) && open && !f.prev_open ==> flash_step(
            f,
            last_speaker,
            lane,
            open,
            now_ns,
        ) == (LaneFlash { prev_open: true, flash_ns: Some(now_ns) }, Some(lane)),
{
}

/// The effects after a frame.
pub open spec fn effects_after(e: Effects, sh: Shared, now_ns: u64) -> Effects {
    if sh.phase != Phase::Running {
        Effects {
            mic: LaneFlash { prev_open: false, ..e.mic },
            sys: LaneFlash { prev_open: false, ..e.sys },
            ..e
        }
    } else {
        let (mic, speaker) = flash_step(
            e.mic,
            e.last_speaker,
            0,
            sh.lanes[0].open_start_ns is Some,
            now_ns,
        );
        let (sys, speaker) = flash_step(
            e.sys,
            speaker,
            1,
            sh.lanes[1].open_start_ns is Some,
            now_ns,
        );
        Effects {
            mic,
            sys,
            last_speaker: speaker,
            turn_flash_ns: if sh.turns@.len() > e.last_turn_count && sh.turns@.last().latency_ms is Some {
                Some(now_ns)
            } else {
                e.turn_flash_ns
            },
            last_turn_count: sh.turns@.len() as usize,
        }
    }
}

/// How much of a flash is left: the square of the time left over the square of
/// its duration.
pub open spec fn flash_left(at_ns: Option<u64>, now_ns: u64, duration_ms: u64) -> Intensity {
    let d = duration_ms * NS_PER_MS;
    match at_ns {
        Some(at) if span_ns(at, now_ns) < d => Intensity {
            num: ((d - span_ns(at, now_ns)) * (d - span_ns(at, now_ns))) as u128,
            den: (d * d) as u128,
        },
        _ => Intensity { num: 0, den: 1 },
    }
}

impl LaneFlash {
    fn step(
        &mut self,
        last_speaker: Option<usize>,
        lane: usize,
        open: bool,
        now_ns: u64,
    ) -> (speaker: Option<usize>)
        ensures
            (*final(self), speaker) == flash_step(*old(self), last_speaker, lane, open, now_ns),
    {
        let rising = open && !self.prev_open;
        let other_spoke = match last_speaker {
            Some(last) => last != lane,
            None => true,
        };
        if rising && other_spoke {
            self.flash_ns = Some(now_ns);
        }
        self.prev_open = open;
        if rising {
            Some(lane)
        } else {
            last_speaker
        }
    }
}

impl Effects {
    /// Follows the shared state from frame to frame.
    pub fn update(&mut self, sh: &Shared, now_ns: u64)
        ensures
            *final(self) == effects_after(*old(self), *sh, now_ns),
    {
        if sh.phase != Phase::Running {
            self.mic.prev_open = false;
            self.sys.prev_open = false;
            return;
        }
        let mic_open = sh.lanes[0].open_start_ns.is_some();
        self.last_speaker = self.mic.step(self.last_speaker, 0, mic_open, now_ns);
        let sys_open = sh.lanes[1].open_start_ns.is_some();
        self.last_speaker = self.sys.step(self.last_speaker, 1, sys_open, now_ns);
        let n: usize = sh.turns.len();
        if n > self.last_turn_count && sh.turns[n - 1].latency_ms.is_some() {
            self.turn_flash_ns = Some(now_ns);
        }
        self.last_turn_count = n;
    }

    /// Flash intensity of a lane (speaker just switched to it).
    pub fn lane_intensity(&self, lane: usize, now_ns: u64) -> (i: Intensity)
        ensures
            i == flash_left(
                if lane == LANE_MIC {
                    self.mic.flash_ns
                } else {
                    self.sys.flash_ns
                },
                now_ns,
                LANE_FLASH_MS,
            ),
    {
        if lane == LANE_MIC {
            intensity(self.mic.flash_ns, now_ns, LANE_FLASH_MS)
        } else {
            intensity(self.sys.flash_ns, now_ns, LANE_FLASH_MS)
        }
    }

    /// Pulse intensity of the headline latency.
    pub fn turn_intensity(&self, now_ns: u64) -> (i: Intensity)
        ensures
            i == flash_left(self.turn_flash_ns, now_ns, TURN_FLASH_MS),
    {
        intensity(self.turn_flash_ns, now_ns, TURN_FLASH_MS)
    }
}

fn intensity(at_ns: Option<u64>, now_ns: u64, duration_ms: u64) -> (i: Intensity)
    requires
        duration_ms <= 1_000,
    ensures
        i == flash_left(at_ns, now_ns, duration_ms),
{
    let d: u128 = duration_ms as u128 * 1_000_000;
    if let Some(at) = at_ns {
        let t: u128 = now_ns.saturating_sub(at) as u128;
        if t < d {
            let left: u128 = d - t;
            assert(0 <= left * left <= d * d <= 1_000_000_000 * 1_000_000_000) by (nonlinear_arith)
                requires
                    0 <= left <= d <= 1_000_000_000,
            ;
            return Intensity { num: left * left, den: d * d };
        }
    }
    Intensity { num: 0, den: 1 }
}

/// An intensity is never more than one, and fades as time goes by.
pub proof fn law_flash_fades(at_ns: Option<u64>, now_ns: u64, later_ns: u64, duration_ms: u64)
    requires
        now_ns <= later_ns,
        0 < duration_ms <= 1_000,
    ensures
        ({
            let a = flash_left(at_ns, now_ns, duration_ms);
            let b = flash_left(at_ns, later_ns, duration_ms);
            a.num <= a.den && b.num * a.den <= a.num * b.den
        }),
{
    if let Some(at) = at_ns {
        let d = duration_ms * NS_PER_MS;
        let x = d - span_ns(at, now_ns);
        let y = d - span_ns(at, later_ns);
        let a = flash_left(at_ns, now_ns, duration_ms);
        let b = flash_left(at_ns, later_ns, duration_ms);
        if x > 0 {
            assert(0 <= x * x <= d * d <= 1_000_000_000 * 1_000_000_000) by (nonlinear_arith)
                requires
                    0 <= x <= d <= 1_000_000_000,
            ;
            if y > 0 {
                assert(0 <= y * y <= x * x) by (nonlinear_arith)
                    requires
                        0 <= y <= x,
                ;
                assert(y * y * (d * d) <= x * x * (d * d)) by (nonlinear_arith)
                    requires
                        y * y <= x * x,
                        d * d >= 0,
                ;
            }
        }
    }
}

/// Under half a second is good, under a second borderline, anything longer bad.
pub proof fn law_latency_grades(latency: Millis)
    ensures
        latency_grade(latency) is Good <==> latency.ns < 500_000_000,
        latency_grade(latency) is Borderline <==> 500_000_000 <= latency.ns < 1_000_000_000,
        latency_grade(latency) is Bad <==> 1_000_000_000 <= latency.ns,
{
}

/// Good is green, borderline amber, bad red.
pub proof fn law_grade_colours()
    ensures
        Grade::Good.shade() == (Rgb { r: 56, g: 166, b: 87 }),
        Grade::Borderline.shade() == (Rgb { r: 219, g: 158, b: 0 }),
        Grade::Bad.shade() == (Rgb { r: 214, g: 72, b: 61 }),
        forall|r: u8, g: u8, b: u8| #[trigger] Rgb::of(r, g, b) == (Rgb { r, g, b }),
{
}

/// The mic is green and the system lane blue, on either background.
pub proof fn law_lane_colours(dark: bool, lane: usize)
    ensures
        ({
            let p = palette_of(dark, lane);
            &&& lane == 0 ==> p.fill.g > p.fill.r && p.fill.g > p.fill.b && p.bar.g > p.bar.r
                && p.bar.g > p.bar.b && p.label.g > p.label.r && p.label.g > p.label.b
            &&& lane != 0 ==> p.fill.b > p.fill.g && p.fill.g > p.fill.r && p.bar.b > p.bar.g
                && p.bar.g > p.bar.r && p.label.b > p.label.g && p.label.g > p.label.r
        }),
        palette_of(true, 0).fill == (Rgb { r: 42, g: 62, b: 32 }),
        palette_of(true, 0).bar == (Rgb { r: 174, g: 213, b: 129 }),
        palette_of(true, 0).label == (Rgb { r: 174, g: 213, b: 129 }),
        palette_of(false, 0).fill == (Rgb { r: 220, g: 237, b: 200 }),
        palette_of(false, 0).bar == (Rgb { r: 51, g: 105, b: 30 }),
        palette_of(false, 0).label == (Rgb { r: 85, g: 139, b: 47 }),
        palette_of(true, 1).fill == (Rgb { r: 28, g: 42, b: 70 }),
        palette_of(true, 1).bar == (Rgb { r: 144, g: 180, b: 250 }),
        palette_of(true, 1).label == (Rgb { r: 144, g: 180, b: 250 }),
        palette_of(false, 1).fill == (Rgb { r: 219, g: 234, b: 254 }),
        palette_of(false, 1).bar == (Rgb { r: 48, g: 79, b: 158 }),
        palette_of(false, 1).label == (Rgb { r: 59, g: 91, b: 165 }),
{
}

/// The colour of each category.
pub proof fn law_category_colours()
    ensures
        category_shade(EventCategory::User) == (Rgb { r: 76, g: 175, b: 80 }),
        category_shade(EventCategory::Bot) == (Rgb { r: 66, g: 133, b: 244 }),
        category_shade(EventCategory::Tts) == (Rgb { r: 255, g: 152, b: 0 }),
        category_shade(EventCategory::Llm) == (Rgb { r: 171, g: 71, b: 188 }),
        category_shade(EventCategory::Stt) == (Rgb { r: 0, g: 150, b: 136 }),
        category_shade(EventCategory::Metrics) == (Rgb { r: 140, g: 140, b: 140 }),
        category_shade(EventCategory::Other) == (Rgb { r: 233, g: 30, b: 99 }),
{
}

/// Events are listed in the order in which they came: a further one is added at
/// the end, if its category is switched on.
pub proof fn law_events_are_listed_in_order(
    events: Seq<BridgeEvent>,
    e: BridgeEvent,
    filter: EventFilterConfig,
)
    ensures
        shown(Seq::empty(), filter) == Seq::<usize>::empty(),
        filter.shows(category_of(e.name@)) ==> shown(events.push(e), filter) == shown(
            events,
            filter,
        ).push(events.len() as usize),
        !filter.shows(category_of(e.name@)) ==> shown(events.push(e), filter) == shown(
            events,
            filter,
        ),
{
    assert(events.push(e).drop_last() =~= events);
}

/// Outside a session nothing begins to flash, and no lane counts as active.
pub proof fn law_nothing_flashes_outside_a_session(e: Effects, sh: Shared, now_ns: u64)
    requires
        sh.phase != Phase::Running,
    ensures
        ({
            let after = effects_after(e, sh, now_ns);
            &&& !after.mic.prev_open && !after.sys.prev_open
            &&& after.mic.flash_ns == e.mic.flash_ns
            &&& after.sys.flash_ns == e.sys.flash_ns
            &&& after.last_speaker == e.last_speaker
            &&& after.turn_flash_ns == e.turn_flash_ns
            &&& after.last_turn_count == e.last_turn_count
        }),
{
}

/// Within a session a lane flashes at the frame at which it becomes active, unless
/// it was the last to do so; of two that become active at once, the system lane
/// is the later.
pub proof fn law_lane_flashes_on_a_switch(e: Effects, sh: Shared, now_ns: u64)
    requires
        sh.phase == Phase::Running,
    ensures
        ({
            let after = effects_after(e, sh, now_ns);
            let mic = sh.lanes[0].open_start_ns is Some && !e.mic.prev_open;
            let sys = sh.lanes[1].open_start_ns is Some && !e.sys.prev_open;
            &&& after.mic.prev_open == (sh.lanes[0].open_start_ns is Some)
            &&& after.sys.prev_open == (sh.lanes[1].open_start_ns is Some)
            &&& after.mic.flash_ns == if mic && e.last_speaker != Some(0usize) {
                Some(now_ns)
            } else {
                e.mic.flash_ns
            }
            &&& after.sys.flash_ns == if sys && (mic || e.last_speaker != Some(1usize)) {
                Some(now_ns)
            } else {
                e.sys.flash_ns
            }
            &&& sys ==> after.last_speaker == Some(1usize)
            &&& mic && !sys ==> after.last_speaker == Some(0usize)
            &&& !mic && !sys ==> after.last_speaker == e.last_speaker
        }),
{
}

/// The headline pulses at the frame at which a turn is added that has a latency.
pub proof fn law_headline_pulses_on_a_measured_turn(e: Effects, sh: Shared, now_ns: u64)
    requires
        sh.phase == Phase::Running,
        sh.turns@.len() <= usize::MAX,
    ensures
        ({
            let after = effects_after(e, sh, now_ns);
            let n = sh.turns@.len();
            &&& after.last_turn_count == n
            &&& n > e.last_turn_count && sh.turns@[n - 1].latency_ms is Some ==> after.turn_flash_ns
                == Some(now_ns)
            &&& n <= e.last_turn_count || sh.turns@[n - 1].latency_ms is None
                ==> after.turn_flash_ns == e.turn_flash_ns
        }),
{
}

/// A flash begins in full, fades with the square of the time left, and is over
/// when its time is up; what never flashed does not.
pub proof fn law_flash_fades_with_the_square(at_ns: u64, now_ns: u64, duration_ms: u64)
    requires
        at_ns <= now_ns,
        0 < duration_ms <= 1_000,
    ensures
        ({
            let d = duration_ms * 1_000_000;
            let left = d - (now_ns - at_ns);
            let i = flash_left(Some(at_ns), now_ns, duration_ms);
            &&& left <= 0 ==> i.num == 0
            &&& left > 0 ==> i.num == left * left && i.den == d * d
        }),
        flash_left(Some(at_ns), at_ns, duration_ms).num == flash_left(
            Some(at_ns),
            at_ns,
            duration_ms,
        ).den,
        flash_left(None, now_ns, duration_ms).num == 0,
        LANE_FLASH_MS == 650,
        TURN_FLASH_MS == 900,
{
    let d = duration_ms * 1_000_000;
    let left = d - (now_ns - at_ns);
    assert(0 <= d * d <= u128::MAX) by (nonlinear_arith)
        requires
            0 <= d <= 1_000_000_000,
    ;
    if left > 0 {
        assert(0 <= left * left <= u128::MAX) by (nonlinear_arith)
            requires
                0 < left <= 1_000_000_000,
        ;
    }
}

} // verus!
