//! Board pins of the robot HAT.
use vstd::prelude::*;

verus! {

/// The named pins of the robot HAT, in the Broadcom (BCM) numbering of the Pi.
#[derive(Copy, Clone, PartialEq, Debug, Eq, Structural)]
pub enum Pins {
    D0,
    D1,
    D2,
    D3,
    Sw,
    User,
    Led,
    BoardType,
    Rst,
    BleInt,
    BleRst,
    McuRst,
    Ce,
}

/// BCM GPIO number wired to each pin.
pub open spec fn pin_number(pin: Pins) -> u8 {
    match pin {
        Pins::D0 => 17,
        Pins::D1 => 4,
        Pins::D2 => 27,
        Pins::D3 => 22,
        Pins::Sw => 25,
        Pins::User => 25,
        Pins::Led => 26,
        Pins::BoardType => 12,
        Pins::Rst => 16,
        Pins::BleInt => 13,
        Pins::BleRst => 20,
        Pins::McuRst => 5,
        Pins::Ce => 8,
    }
}

impl Pins {
    /// The BCM GPIO number of this pin.
    pub fn value(self) -> (r: u8)
        ensures
            r == pin_number(self),
    {
        match self {
            Pins::D0 => 17,
            Pins::D1 => 4,
            Pins::D2 => 27,
            Pins::D3 => 22,
            Pins::Sw => 25,
            Pins::User => 25,
            Pins::Led => 26,
            Pins::BoardType => 12,
            Pins::Rst => 16,
            Pins::BleInt => 13,
            Pins::BleRst => 20,
            Pins::McuRst => 5,
            Pins::Ce => 8,
        }
    }
}

} // verus!
