//! The control bar.

use vstd::prelude::*;
use vstd::string::StringExecFns;
use crate::config::{seg_cfg, Config};
use crate::scalar::Scalar32;
use crate::session::{Shared, SysStatus};
use crate::text::{decimal, decimal_text};
use crate::ui::{Grade, Rgb};

verus! {

/// What the user asked for on the control bar.
#[derive(Clone, Copy, Debug, PartialEq, Eq, Structural)]
pub struct ControlsOutput {
    pub start_clicked: bool,
    pub stop_clicked: bool,
    pub apply_devices: bool,
    pub restart_bridge: bool,
    pub refresh_devices: bool,
    pub fit_clicked: bool,
}

impl Default for ControlsOutput {
    fn default() -> (out: ControlsOutput)
        ensures
            out == (ControlsOutput {
                start_clicked: false,
                stop_clicked: false,
                apply_devices: false,
                restart_bridge: false,
                refresh_devices: false,
                fit_clicked: false,
            }),
    {
        ControlsOutput {
            start_clicked: false,
            stop_clicked: false,
            apply_devices: false,
            restart_bridge: false,
            refresh_devices: false,
            fit_clicked: false,
        }
    }
}

impl ControlsOutput {
    /// The start/stop button was clicked.
    pub fn toggle_clicked(&mut self, running: bool)
        ensures
            *final(self) == if running {
                ControlsOutput { stop_clicked: true, ..*old(self) }
            } else {
                ControlsOutput { start_clicked: true, ..*old(self) }
            },
    {
        if running {
            self.stop_clicked = true;
        } else {
            self.start_clicked = true;
        }
    }

    /// A mic was chosen (`None` is the system default).
    pub fn input_chosen(&mut self, cfg: &mut Config, name: Option<String>)
        ensures
            *final(self) == (ControlsOutput { apply_devices: true, ..*old(self) }),
            *final(cfg) == (Config { input_device: name, ..*old(cfg) }),
    {
        cfg.input_device = name;
        self.apply_devices = true;
    }

    /// A system audio source was chosen.
    pub fn system_source_chosen(&mut self, cfg: &mut Config, name: String)
        ensures
            *final(self) == (ControlsOutput { apply_devices: true, ..*old(self) }),
            *final(cfg) == (Config { linux_system_device: Some(name), ..*old(cfg) }),
    {
        cfg.linux_system_device = Some(name);
        self.apply_devices = true;
    }

    /// The bridge's port is now `port`: the bridge restarts if that is another
    /// one.
    pub fn port_entered(&mut self, cfg: &mut Config, port: u16)
        ensures
            *final(self) == if port == old(cfg).bridge.port {
                *old(self)
            } else {
                ControlsOutput { restart_bridge: true, ..*old(self) }
            },
            final(cfg).bridge.port == port,
            *final(cfg) == (Config { bridge: final(cfg).bridge, ..*old(cfg) }),
            final(cfg).bridge.enabled == old(cfg).bridge.enabled,
    {
        if cfg.bridge.port != port {
            self.restart_bridge = true;
        }
        cfg.bridge.port = port;
    }
}

/// The threshold to mark on a lane's meter.
pub fn shown_threshold(cfg: &Config, sh: &Shared, lane: usize) -> (db: Scalar32)
    requires
        lane < 2,
    ensures
        db == if cfg.segmenter_of(lane).auto_threshold {
            sh.lanes[lane as int].effective_threshold_db
        } else {
            cfg.segmenter_of(lane).threshold_db
        },
{
    let seg = seg_cfg(cfg, lane);
    if seg.auto_threshold {
        sh.lanes[lane].effective_threshold_db
    } else {
        seg.threshold_db
    }
}

/// Rank of -12 dBFS: louder is too loud.
pub const LOUD_DB: i32 = -0x4140_0000;

/// Rank of -30 dBFS: louder is borderline.
pub const FAIR_DB: i32 = -0x41F0_0000;

/// The grade of a level.
pub open spec fn level_grade(level_db: Scalar32) -> Grade {
    if level_db.rank > LOUD_DB {
        Grade::Bad
    } else if level_db.rank > FAIR_DB {
        Grade::Borderline
    } else {
        Grade::Good
    }
}

/// The colour of a level meter.
pub fn meter_color(level_db: Scalar32) -> (c: Rgb)
    ensures
        c == level_grade(level_db).shade(),
{
    if level_db.rank > LOUD_DB {
        Grade::Bad.color()
    } else if level_db.rank > FAIR_DB {
        Grade::Borderline.color()
    } else {
        Grade::Good.color()
    }
}

/// The text of the bridge chip.
pub open spec fn chip_text(cfg: Config, sh: Shared) -> Seq<char> {
    if !cfg.bridge.enabled {
        "bridge off"@
    } else if sh.bridge.running {
        "bridge :"@ + decimal_text(sh.bridge.port as nat) + " \u{b7} "@ + decimal_text(
            sh.bridge.clients as nat,
        )
    } else {
        match sh.bridge.error {
            Some(e) => e@,
            None => "bridge error"@,
        }
    }
}

/// The colour of the bridge chip.
pub open spec fn chip_color(cfg: Config, sh: Shared) -> Rgb {
    if !cfg.bridge.enabled {
        Rgb::of(130, 130, 130)
    } else if !sh.bridge.running {
        Grade::Bad.shade()
    } else if sh.bridge.clients > 0 {
        Grade::Good.shade()
    } else {
        Rgb::of(140, 140, 140)
    }
}

/// The chip that tells how the bridge does.
pub fn bridge_chip(cfg: &Config, sh: &Shared) -> (chip: (String, Rgb))
    ensures
        chip.0@ == chip_text(*cfg, *sh),
        chip.1 == chip_color(*cfg, *sh),
{
    if !cfg.bridge.enabled {
        (String::from_str("bridge off"), Rgb::new(130, 130, 130))
    } else if sh.bridge.running {
        let mut text = String::from_str("bridge :");
        let port = decimal(sh.bridge.port as u128);
        text.append(port.as_str());
        text.append(" \u{b7} ");
        let clients = decimal(sh.bridge.clients as u128);
        text.append(clients.as_str());
        let color = if sh.bridge.clients > 0 {
            Grade::Good.color()
        } else {
            Rgb::new(140, 140, 140)
        };
        (text, color)
    } else {
        let text = match &sh.bridge.error {
            Some(e) => e.clone(),
            None => String::from_str("bridge error"),
        };
        (text, Grade::Bad.color())
    }
}

/// The dot that tells how system audio capture does, and its explanation.
pub fn sys_dot(status: &SysStatus) -> (dot: (Rgb, String))
    ensures
        match *status {
            SysStatus::Capturing => dot.0 == Grade::Good.shade() && dot.1@
                == "System audio tap running"@,
            SysStatus::Unavailable(e) => dot.0 == Rgb::of(140, 140, 140) && dot.1@ == e@,
            SysStatus::Error(e) => dot.0 == Grade::Bad.shade() && dot.1@ == e@,
        },
{
    match status {
        SysStatus::Capturing => (
            Grade::Good.color(),
            String::from_str("System audio tap running"),
        ),
        SysStatus::Unavailable(e) => (Rgb::new(140, 140, 140), e.clone()),
        SysStatus::Error(e) => (Grade::Bad.color(), e.clone()),
    }
}

/// A level over -12 dBFS is too loud, one over -30 dBFS borderline.
pub proof fn law_level_grades(level_db: Scalar32)
    ensures
        level_grade(level_db) is Bad <==> level_db.rank > -0x4140_0000,
        level_grade(level_db) is Borderline <==> -0x41F0_0000 < level_db.rank <= -0x4140_0000,
        level_grade(level_db) is Good <==> level_db.rank <= -0x41F0_0000,
{
}

/// The chip says whether the bridge is off, where it serves and how many, or what
/// went wrong.
pub proof fn law_bridge_chip_says_how_it_does(cfg: Config, sh: Shared)
    ensures
        !cfg.bridge.enabled ==> chip_text(cfg, sh) == "bridge off"@,
        cfg.bridge.enabled && sh.bridge.running ==> chip_text(cfg, sh) == "bridge :"@
            + decimal_text(sh.bridge.port as nat) + " \u{b7} "@ + decimal_text(
            sh.bridge.clients as nat,
        ),
        cfg.bridge.enabled && !sh.bridge.running && sh.bridge.error is Some ==> chip_text(cfg, sh)
            == sh.bridge.error->0@,
        cfg.bridge.enabled && !sh.bridge.running && sh.bridge.error is None ==> chip_text(cfg, sh)
            == "bridge error"@,
{
}

/// The chip is red while an enabled bridge does not run, green while it serves
/// anyone, and grey otherwise.
pub proof fn law_bridge_chip_colours(cfg: Config, sh: Shared)
    ensures
        !cfg.bridge.enabled ==> chip_color(cfg, sh) == (Rgb { r: 130, g: 130, b: 130 }),
        cfg.bridge.enabled && !sh.bridge.running ==> chip_color(cfg, sh) == (Rgb {
            r: 214,
            g: 72,
            b: 61,
        }),
        cfg.bridge.enabled && sh.bridge.running && sh.bridge.clients > 0 ==> chip_color(cfg, sh)
            == (Rgb { r: 56, g: 166, b: 87 }),
        cfg.bridge.enabled && sh.bridge.running && sh.bridge.clients == 0 ==> chip_color(cfg, sh)
            == (Rgb { r: 140, g: 140, b: 140 }),
{
}

} // verus!
