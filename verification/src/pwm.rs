//! One PWM output of the HAT and the timer that drives it.
use vstd::prelude::*;
use crate::bus::{reg_write, swapped, RegWrite};
use crate::text::{decimal, decimal_is_numeral, decimal_string, is_numeral_of};

verus! {

/// First pulse-width register; output `c` is at `REG_CHN + c`.
pub const REG_CHN: u8 = 0x20;

/// Number of PWM outputs.
pub const PWM_CHANNELS: u8 = 12;

/// Prescaler register of each timer; timer `t` drives outputs `4t..4t+3`.
pub open spec fn timer_psc(t: int) -> u8 {
    if t == 0 { 0x40 } else if t == 1 { 0x41 } else { 0x42 }
}

/// Period register of each timer.
pub open spec fn timer_per(t: int) -> u8 {
    if t == 0 { 0x44 } else if t == 1 { 0x45 } else { 0x46 }
}

const TIMER_PSC: [u8; 3] = [0x40, 0x41, 0x42];

const TIMER_PER: [u8; 3] = [0x44, 0x45, 0x46];

/// A PWM output: its number, the frequency its timer was last set to, and the
/// timer period (counts per cycle).
pub struct Pwm {
    channel: u8,
    freq: u32,
    max_period: u16,
}

/// The message for an output number beyond the last one.
pub open spec fn channel_range_message(channel: u8) -> Seq<char> {
    "Channel "@ + decimal(channel as nat) + " is out of range (0-11)"@
}

/// The two writes that program the timer of `channel`: prescaler, then period.
pub open spec fn timer_writes(channel: u8, prescaler: u16, max_period: u16) -> Seq<RegWrite> {
    seq![
        RegWrite { reg: timer_psc(channel as int / 4), word: swapped(prescaler) },
        RegWrite { reg: timer_per(channel as int / 4), word: swapped(max_period) },
    ]
}

impl Pwm {
    #[verifier::type_invariant]
    closed spec fn channel_in_range(self) -> bool {
        self.channel < 12
    }

    pub closed spec fn spec_channel(self) -> u8 {
        self.channel
    }

    pub closed spec fn spec_freq(self) -> u32 {
        self.freq
    }

    pub closed spec fn spec_period(self) -> u16 {
        self.max_period
    }

    /// The output number, always below 12.
    pub fn channel(&self) -> (r: u8)
        ensures
            r == self.spec_channel(),
            r < 12,
    {
        proof {
            use_type_invariant(self);
        }
        self.channel
    }

    /// The frequency last programmed, in Hz.
    pub fn get_freq(&self) -> (r: u32)
        ensures
            r == self.spec_freq(),
    {
        self.freq
    }

    /// The timer period.
    pub fn get_period(&self) -> (r: u16)
        ensures
            r == self.spec_period(),
    {
        self.max_period
    }

    /// Opens output `channel` with the given timer period and programs its
    /// timer for 50 Hz. `prescaler` is the prescaler for 50 Hz at this period.
    /// Fails for an output number above 11, with nothing written.
    pub fn new(channel: u8, max_period: u16, prescaler: u16) -> (r: Result<(Pwm, Vec<RegWrite>), String>)
        ensures
            channel > 11 ==> (r matches Err(msg) && msg@ == channel_range_message(channel)
                && exists|n: Seq<char>|
                #![trigger is_numeral_of(n, channel as nat)]
                is_numeral_of(n, channel as nat) && msg@ == "Channel "@ + n
                    + " is out of range (0-11)"@),
            channel <= 11 ==> (r matches Ok((pwm, writes)) && {
                &&& pwm.spec_channel() == channel
                &&& pwm.spec_period() == max_period
                &&& pwm.spec_freq() == 50
                &&& writes@ == timer_writes(channel, prescaler, max_period)
            }),
    {
        if channel > 11 {
            proof {
                decimal_is_numeral(channel as nat);
            }
            let mut msg = String::from_str("Channel ");
            let n = decimal_string(channel as u64);
            msg.append(n.as_str());
            msg.append(" is out of range (0-11)");
            return Err(msg);
        }
        let mut pwm = Pwm { channel, freq: 0, max_period };
        let writes = pwm.set_freq(50, prescaler);
        Ok((pwm, writes))
    }

    /// Sets the frequency of this output's timer: the prescaler (computed for
    /// `hz` at this period) and the period are written to the timer's registers.
    pub fn set_freq(&mut self, hz: u16, prescaler: u16) -> (writes: Vec<RegWrite>)
        ensures
            final(self).spec_channel() == old(self).spec_channel(),
            final(self).spec_period() == old(self).spec_period(),
            final(self).spec_freq() == hz,
            writes@ == timer_writes(old(self).spec_channel(), prescaler, old(self).spec_period()),
    {
        proof {
            use_type_invariant(&*self);
        }
        let timer = (self.channel / 4) as usize;
        let mut writes: Vec<RegWrite> = Vec::new();
        writes.push(reg_write(TIMER_PSC[timer], prescaler));
        writes.push(reg_write(TIMER_PER[timer], self.max_period));
        self.freq = hz as u32;
        assert(writes@ =~= timer_writes(self.channel, prescaler, self.max_period));
        writes
    }

    /// The write that sets this output's pulse width (in timer counts).
    pub fn pulse_width(&mut self, pulse_width: u16) -> (w: RegWrite)
        ensures
            *final(self) == *old(self),
            w == (RegWrite { reg: (REG_CHN + old(self).spec_channel()) as u8, word: swapped(pulse_width) }),
    {
        proof {
            use_type_invariant(&*self);
        }
        reg_write(REG_CHN + self.channel, pulse_width)
    }
}

} // verus!

verus! {

/// Programming a timer puts on the bus, for output `channel`: the prescaler
/// register of timer `channel / 4` (`0x40`, `0x41`, `0x42`) with the prescaler
/// high byte first, then its period register (`0x44`, `0x45`, `0x46`) with the
/// period high byte first.
pub proof fn timer_writes_on_the_wire(channel: u8, prescaler: u16, max_period: u16)
    requires
        channel < 12,
    ensures
        crate::bus::wire_bytes(timer_writes(channel, prescaler, max_period)[0]) == seq![
            (0x40 + channel / 4) as u8,
            (prescaler / 256) as u8,
            (prescaler % 256) as u8,
        ],
        crate::bus::wire_bytes(timer_writes(channel, prescaler, max_period)[1]) == seq![
            (0x44 + channel / 4) as u8,
            (max_period / 256) as u8,
            (max_period % 256) as u8,
        ],
{
    crate::bus::reg_write_is_big_endian(timer_psc(channel as int / 4), prescaler);
    crate::bus::reg_write_is_big_endian(timer_per(channel as int / 4), max_period);
}

} // verus!
