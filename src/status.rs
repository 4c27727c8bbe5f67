//! Status signalling: the colours of the status LED and the messages that
//! services exchange.

use vstd::prelude::*;

use crate::frame::Frame;

verus! {

/// The colours the status LED can show.
#[derive(Debug, Clone, Copy, PartialEq, Eq, Structural)]
pub enum LedColor {
    Red,
    Green,
    Blue,
    Cyan,
    Magenta,
    Yellow,
    White,
    Off,
}

/// The same colours, under their older name.
pub type Color = LedColor;

/// Which of the red, green and blue pins are driven high.
#[derive(Debug, Clone, Copy, PartialEq, Eq, Structural)]
pub struct PinLevels {
    pub red: bool,
    pub green: bool,
    pub blue: bool,
}

/// The pins that are high for `c`: each colour mixes its primaries.
pub open spec fn levels_of(c: LedColor) -> PinLevels {
    match c {
        LedColor::Red => PinLevels { red: true, green: false, blue: false },
        LedColor::Green => PinLevels { red: false, green: true, blue: false },
        LedColor::Blue => PinLevels { red: false, green: false, blue: true },
        LedColor::Cyan => PinLevels { red: false, green: true, blue: true },
        LedColor::Magenta => PinLevels { red: true, green: false, blue: true },
        LedColor::Yellow => PinLevels { red: true, green: true, blue: false },
        LedColor::White => PinLevels { red: true, green: true, blue: true },
        LedColor::Off => PinLevels { red: false, green: false, blue: false },
    }
}

impl LedColor {
    /// The pin levels that show this colour.
    pub fn pin_levels(&self) -> (r: PinLevels)
        ensures
            r == levels_of(*self),
    {
        match self {
            LedColor::Red => PinLevels { red: true, green: false, blue: false },
            LedColor::Green => PinLevels { red: false, green: true, blue: false },
            LedColor::Blue => PinLevels { red: false, green: false, blue: true },
            LedColor::Cyan => PinLevels { red: false, green: true, blue: true },
            LedColor::Magenta => PinLevels { red: true, green: false, blue: true },
            LedColor::Yellow => PinLevels { red: true, green: true, blue: false },
            LedColor::White => PinLevels { red: true, green: true, blue: true },
            LedColor::Off => PinLevels { red: false, green: false, blue: false },
        }
    }
}

/// Why the status service could not be reached.
#[derive(Debug, Clone, Copy, PartialEq, Eq, Structural)]
pub enum StatusServiceError {
    NoService,
}

/// Where the local status endpoint listens, and the node it reports for.
#[derive(Debug, Clone)]
pub struct LocalServiceConfig {
    pub port: u16,
    pub node_id: String,
}

/// What the acquisition hands to the other services.
#[derive(Debug, Clone)]
pub enum ServiceMessage {
    NewFrame(Frame),
    Shutdown,
}

} // verus!
