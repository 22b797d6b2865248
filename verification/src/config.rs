//! The settings of the daemon, as plain values.

use crate::animations::FrameDuration;
use vstd::prelude::*;

verus! {

/// The settings of the daemon.
#[derive(Debug)]
pub struct Config {
    /// The displays, each by its name and the path of its serial device. No
    /// name stands twice.
    pub displays: Vec<(String, String)>,
    /// The path of the control socket.
    pub socket_path: String,
    pub builtin: BuiltinConfig,
    /// The animations, each by its name. No name stands twice.
    pub animations: Vec<(String, AnimationConfig)>,
}

/// The settings of the animations that the daemon starts by itself.
#[derive(Debug)]
pub struct BuiltinConfig {
    pub charger: Option<ChargerConfig>,
}

/// The animation that is played when a charger is plugged in.
#[derive(Debug)]
pub struct ChargerConfig {
    pub animation_left: String,
    pub animation_right: String,
    pub offset: i8,
    pub left_display: String,
    pub right_display: String,
}

/// How an animation is made.
#[derive(Debug)]
pub enum AnimationConfig {
    Builtin(BuiltinAnimation),
    File(FileAnimation),
}

/// An animation that is computed.
#[derive(Debug)]
pub enum BuiltinAnimation {
    Spread(SpreadAnimation),
}

/// The settings of the diffusion animation.
#[derive(Debug)]
pub struct SpreadAnimation {
    /// The cells that are lit at the start, each as column, row, brightness.
    pub seeds: Vec<[u8; 3]>,
    /// How long each generation stays on the display.
    pub frame_duration: FrameDuration,
    pub stay_cost: u8,
    pub horiz_cost: u8,
    pub vert_cost: u8,
    pub diag_cost: u8,
}

/// An animation that is read from a keyframe file.
#[derive(Debug)]
pub struct FileAnimation {
    pub path: String,
}

/// What the charger settings name that the settings do not hold.
#[derive(Debug)]
pub enum ConfigError {
    MissingAnimation { name: String },
    MissingDisplay { name: String },
}

/// The path of the control socket where the settings name none.
pub fn default_socket_path() -> (path: String)
    ensures
        path@ == "/run/fw-lights.sock"@,
{
    "/run/fw-lights.sock".to_owned()
}

/// The name of the left display where the settings name none.
pub fn default_left_display() -> (name: String)
    ensures
        name@ == "left"@,
{
    "left".to_owned()
}

/// The name of the right display where the settings name none.
pub fn default_right_display() -> (name: String)
    ensures
        name@ == "right"@,
{
    "right".to_owned()
}

/// Whether one of the first `count` entries has the name `name`.
pub open spec fn names<T>(entries: Seq<(String, T)>, name: Seq<char>, count: int) -> bool {
    exists|i: int| 0 <= i < count && i < entries.len() && (#[trigger] entries[i]).0@ == name
}

fn has_name<T>(entries: &Vec<(String, T)>, name: &String) -> (found: bool)
    ensures
        found == names(entries@, name@, entries@.len() as int),
{
    let mut idx: usize = 0;
    while idx < entries.len()
        invariant
            idx <= entries@.len(),
            !names(entries@, name@, idx as int),
        decreases entries@.len() - idx,
    {
        if entries[idx].0 == *name {
            return true;
        }
        idx += 1;
    }
    false
}

impl Config {
    /// What the charger settings name first that the settings do not hold,
    /// in the order left animation, right animation, left display, right
    /// display.
    pub open spec fn first_missing(&self) -> Option<(bool, Seq<char>)> {
        match self.builtin.charger {
            None => None,
            Some(charger) => {
                let animations = self.animations@;
                let displays = self.displays@;
                if !names(animations, charger.animation_left@, animations.len() as int) {
                    Some((true, charger.animation_left@))
                } else if !names(animations, charger.animation_right@, animations.len() as int) {
                    Some((true, charger.animation_right@))
                } else if !names(displays, charger.left_display@, displays.len() as int) {
                    Some((false, charger.left_display@))
                } else if !names(displays, charger.right_display@, displays.len() as int) {
                    Some((false, charger.right_display@))
                } else {
                    None
                }
            },
        }
    }

    /// Checks that the settings hold every animation and display that the
    /// charger settings name.
    pub fn validate(&self) -> (checked: Result<(), ConfigError>)
        ensures
            match checked {
                Ok(_) => self.first_missing() is None,
                Err(ConfigError::MissingAnimation { name }) => self.first_missing() == Some(
                    (true, name@),
                ),
                Err(ConfigError::MissingDisplay { name }) => self.first_missing() == Some(
                    (false, name@),
                ),
            },
    {
        match &self.builtin.charger {
            None => Ok(()),
            Some(charger) => {
                if !has_name(&self.animations, &charger.animation_left) {
                    Err(ConfigError::MissingAnimation { name: charger.animation_left.clone() })
                } else if !has_name(&self.animations, &charger.animation_right) {
                    Err(ConfigError::MissingAnimation { name: charger.animation_right.clone() })
                } else if !has_name(&self.displays, &charger.left_display) {
                    Err(ConfigError::MissingDisplay { name: charger.left_display.clone() })
                } else if !has_name(&self.displays, &charger.right_display) {
                    Err(ConfigError::MissingDisplay { name: charger.right_display.clone() })
                } else {
                    Ok(())
                }
            },
        }
    }
}

} // verus!
