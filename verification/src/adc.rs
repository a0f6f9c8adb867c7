//! The HAT's analog inputs: channel selection and decoding of a reading.
use vstd::prelude::*;
use crate::bus::RegWrite;

verus! {

/// I2C bus number the HAT is attached to.
pub const ADC_I2C_BUS: u8 = 1;

/// I2C address of the HAT's microcontroller.
pub const ADC_I2C_ADDRESS: u16 = 0x14;

/// Full scale of a raw reading (12-bit converter).
pub const ADC_FULL_SCALE: u16 = 4095;

/// An analog input of the HAT.
#[allow(non_camel_case_types)]
#[derive(Copy, Clone, PartialEq, Debug, Eq, Structural)]
pub enum CHANNEL {
    ADC0,
    ADC1,
    ADC2,
    ADC3,
    ADC4,
}

/// The selector word of each input; its third byte is the command byte.
pub open spec fn channel_selector(c: CHANNEL) -> u32 {
    match c {
        CHANNEL::ADC0 => 0x170000,
        CHANNEL::ADC1 => 0x160000,
        CHANNEL::ADC2 => 0x150000,
        CHANNEL::ADC3 => 0x140000,
        CHANNEL::ADC4 => 0x130000,
    }
}

impl CHANNEL {
    /// The selector word of this input.
    pub fn value(self) -> (r: u32)
        ensures
            r == channel_selector(self),
    {
        match self {
            CHANNEL::ADC0 => 0x170000,
            CHANNEL::ADC1 => 0x160000,
            CHANNEL::ADC2 => 0x150000,
            CHANNEL::ADC3 => 0x140000,
            CHANNEL::ADC4 => 0x130000,
        }
    }

    /// The command byte that selects this input: the selector shifted down by 16 bits.
    pub fn command(self) -> (r: u8)
        ensures
            r == channel_selector(self) / 0x10000,
    {
        let v = self.value();
        assert(v >> 16u32 == v / 0x10000) by (bit_vector);
        (v >> 16u32) as u8
    }
}

/// The write that starts a conversion on `channel`: its command byte with a zero word.
pub fn read_request(channel: CHANNEL) -> (w: RegWrite)
    ensures
        w.reg == channel_selector(channel) / 0x10000,
        w.word == 0,
{
    RegWrite { reg: channel.command(), word: 0 }
}

/// The raw reading carried by the two bytes read back, high byte first.
pub fn raw_from_bytes(buf: [u8; 2]) -> (r: u16)
    ensures
        r == buf[0] * 256 + buf[1],
{
    let hi = buf[0];
    let lo = buf[1];
    let r = ((hi as u16) << 8u16) | (lo as u16);
    assert(r == hi * 256 + lo) by (bit_vector)
        requires
            r == ((hi as u16) << 8u16) | (lo as u16),
    ;
    r
}

} // verus!
