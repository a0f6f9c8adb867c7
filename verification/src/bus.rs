//! Word writes to the robot HAT's microcontroller over I2C (SMBus).
use vstd::prelude::*;

verus! {

/// One SMBus "write word" transaction: command byte `reg`, data word `word`,
/// exactly as handed to the bus (SMBus sends the word's low byte first).
#[derive(Copy, Clone, PartialEq, Eq, Debug, Structural)]
pub struct RegWrite {
    pub reg: u8,
    pub word: u16,
}

/// `v` with its two bytes exchanged.
pub open spec fn swapped(v: u16) -> u16 {
    ((v % 256) * 256 + v / 256) as u16
}

/// Exchanges the two bytes of `v`, as `u16::swap_bytes` does.
pub fn swap_bytes(v: u16) -> (r: u16)
    ensures
        r == swapped(v),
{
    let r = (v >> 8u16) | (v << 8u16);
    assert(r == ((v % 256) * 256 + v / 256) as u16) by (bit_vector)
        requires
            r == (v >> 8u16) | (v << 8u16),
    ;
    r
}

/// The write that stores `value` in register `reg` of the HAT, which reads
/// its registers high byte first: the word goes to the bus byte-swapped.
pub fn reg_write(reg: u8, value: u16) -> (w: RegWrite)
    ensures
        w.reg == reg,
        w.word == swapped(value),
{
    RegWrite { reg, word: swap_bytes(value) }
}

/// The bytes that a write puts on the bus after the device address.
pub open spec fn wire_bytes(w: RegWrite) -> Seq<u8> {
    seq![w.reg, (w.word % 256) as u8, (w.word / 256) as u8]
}

/// A register write puts the register number on the bus, then the value high byte first.
pub proof fn reg_write_is_big_endian(reg: u8, value: u16)
    ensures
        wire_bytes(RegWrite { reg, word: swapped(value) }) == seq![
            reg,
            (value / 256) as u8,
            (value % 256) as u8,
        ],
{
    let w = swapped(value);
    assert(w % 256 == value / 256 && w / 256 == value % 256) by (nonlinear_arith)
        requires
            w == ((value % 256) * 256 + value / 256) as u16,
            0 <= value < 65536,
    {
        assert(0 <= (value % 256) * 256 + value / 256 < 65536);
    }
}

/// Swapping the bytes twice gives the value back.
pub proof fn swap_twice(v: u16)
    ensures
        swapped(swapped(v)) == v,
{
    let w = swapped(v);
    assert(swapped(w) == v) by (nonlinear_arith)
        requires
            w == ((v % 256) * 256 + v / 256) as u16,
            0 <= v < 65536,
    {
        assert(0 <= (v % 256) * 256 + v / 256 < 65536);
        assert(w == (v % 256) * 256 + v / 256);
        assert(w % 256 == v / 256);
        assert(w / 256 == v % 256);
    }
}

} // verus!
