//! What the consuming tasks make of a command: the state of the lamp, and the
//! duty that a level stands for.

use crate::command::Command;
use vstd::prelude::*;

verus! {

/// The brightness of a lamp that is fully on.
pub const FULL_BRIGHTNESS: u16 = 255;

/// The duty is eight times the brightness.
pub const DUTY_PER_BRIGHTNESS: u16 = 8;

/// The state of the blinking lamp.
#[derive(Clone, Copy, Debug, PartialEq, Eq, Structural)]
pub struct Lamp {
    /// The brightness of the lit phase.
    pub brightness: u16,
    /// The length of one phase, in seconds.
    pub time: u8,
    /// Whether the next phase is the lit one.
    pub powered: bool,
}

/// The brightness that a level is rounded to.
pub open spec fn quantized(level: u16) -> u16 {
    if level <= 10 {
        5
    } else if level <= 30 {
        20
    } else if level <= 80 {
        70
    } else if level <= 130 {
        110
    } else if level <= 170 {
        150
    } else if level <= 200 {
        180
    } else if level <= 230 {
        240
    } else {
        255
    }
}

/// The brightness after a command: `On` is full, `Off` is none, a level is
/// rounded, and an interval leaves it alone.
pub open spec fn lit_by(brightness: u16, command: Command) -> u16 {
    match command {
        Command::On => FULL_BRIGHTNESS,
        Command::Off => 0,
        Command::SetLevel(level) => quantized(level),
        Command::SetInterval(_) => brightness,
    }
}

/// The phase length after a command: only an interval changes it.
pub open spec fn paced_by(time: u8, command: Command) -> u8 {
    match command {
        Command::SetInterval(secs) => secs,
        _ => time,
    }
}

/// The lamp after a command.
pub open spec fn applied(lamp: Lamp, command: Command) -> Lamp {
    Lamp {
        brightness: lit_by(lamp.brightness, command),
        time: paced_by(lamp.time, command),
        powered: lamp.powered,
    }
}

/// The duty that a command asks of a channel whose full duty is `max`, or
/// `None` where it asks for no change. `On` is the full duty and `Off` none.
/// A level of 250 or more is none, a level below 10 is the full duty, a level
/// above 10 divides the full duty, and the level 10 itself changes nothing.
pub open spec fn duty_of(max: u16, command: Command) -> Option<u16> {
    match command {
        Command::On => Some(max),
        Command::Off => Some(0u16),
        Command::SetLevel(level) => if 10 < level < 250 {
            Some((max / level) as u16)
        } else if level >= 250 {
            Some(0u16)
        } else if level < 10 {
            Some(max)
        } else {
            None
        },
        Command::SetInterval(_) => None,
    }
}

/// Rounds a level to a brightness.
pub fn quantize(level: u16) -> (r: u16)
    ensures
        r == quantized(level),
        r <= FULL_BRIGHTNESS,
{
    if level <= 10 {
        5
    } else if level <= 30 {
        20
    } else if level <= 80 {
        70
    } else if level <= 130 {
        110
    } else if level <= 170 {
        150
    } else if level <= 200 {
        180
    } else if level <= 230 {
        240
    } else {
        255
    }
}

/// The duty that a command asks of a channel whose full duty is `max`.
pub fn pwm_duty(max: u16, command: Command) -> (r: Option<u16>)
    ensures
        r == duty_of(max, command),
{
    match command {
        Command::On => Some(max),
        Command::Off => Some(0),
        Command::SetLevel(level) => {
            if level > 10 && level < 250 {
                Some(max / level)
            } else if level >= 250 {
                Some(0)
            } else if level < 10 {
                Some(max)
            } else {
                None
            }
        },
        Command::SetInterval(_) => None,
    }
}

impl Lamp {
    /// A lamp of the given brightness that changes phase every second and
    /// starts with the dark phase.
    pub fn new(brightness: u16) -> (r: Lamp)
        ensures
            r == (Lamp { brightness, time: 1, powered: false }),
    {
        Lamp { brightness, time: 1, powered: false }
    }

    /// Applies `On`, `Off` or a level to the brightness.
    pub fn light(&mut self, command: Command)
        ensures
            *final(self) == (Lamp {
                brightness: lit_by(old(self).brightness, command),
                ..*old(self)
            }),
    {
        match command {
            Command::On => {
                self.brightness = FULL_BRIGHTNESS;
            },
            Command::Off => {
                self.brightness = 0;
            },
            Command::SetLevel(level) => {
                self.brightness = quantize(level);
            },
            Command::SetInterval(_) => {},
        }
    }

    /// Applies an interval to the phase length.
    pub fn pace(&mut self, command: Command)
        ensures
            *final(self) == (Lamp { time: paced_by(old(self).time, command), ..*old(self) }),
    {
        match command {
            Command::SetInterval(secs) => {
                self.time = secs;
            },
            _ => {},
        }
    }

    /// Applies a command to the lamp.
    pub fn apply(&mut self, command: Command)
        ensures
            *final(self) == applied(*old(self), command),
    {
        self.light(command);
        self.pace(command);
    }
}

} // verus!
