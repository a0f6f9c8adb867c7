//! A group of servos on the HAT, keyed by output channel, with an emergency stop.
//!
//! The group keeps each servo's channel and an opaque per-servo state `S`
//! (the motion state of the servo); it decides which servos exist, which
//! register each pulse goes to and whether a tick may run at all.
use vstd::prelude::*;
use crate::bus::{reg_write, swapped, RegWrite};

verus! {

/// First pulse-width register; channel `c` is at `0x20 + c`.
pub const PULSE_REG_BASE: u8 = 0x20;

/// The write that sets the pulse width of the servo on `channel`.
pub open spec fn pulse_write_spec(channel: u8, pulse_width: u16) -> RegWrite {
    RegWrite { reg: (PULSE_REG_BASE + channel) as u8, word: swapped(pulse_width) }
}

/// The write that sets the pulse width of the servo on `channel`; the register
/// number `0x20 + channel` must fit in a byte.
pub fn pulse_write(channel: u8, pulse_width: u16) -> (w: RegWrite)
    requires
        channel < 0xe0,
    ensures
        w == pulse_write_spec(channel, pulse_width),
{
    reg_write(PULSE_REG_BASE + channel, pulse_width)
}

/// The writes that configure the three timers for servos: period 4095 and
/// prescaler 351 for each timer, period register first.
pub open spec fn timer_setup_writes() -> Seq<RegWrite> {
    seq![
        RegWrite { reg: 0x44, word: swapped(4095) },
        RegWrite { reg: 0x40, word: swapped(351) },
        RegWrite { reg: 0x45, word: swapped(4095) },
        RegWrite { reg: 0x41, word: swapped(351) },
        RegWrite { reg: 0x46, word: swapped(4095) },
        RegWrite { reg: 0x42, word: swapped(351) },
    ]
}

/// Whether a servo appended with this `disable_zero` setting is first set to 0 degrees.
pub open spec fn zeroes_on_append(disable_zero: Option<bool>) -> bool {
    disable_zero != Some(true)
}

/// Servos keyed by channel, each channel at most once, in the order in which
/// channels were first added; and the emergency-stop latch.
pub struct ServoGroup<S> {
    channels: Vec<u8>,
    servos: Vec<S>,
    stopped: bool,
}

impl<S> ServoGroup<S> {
    /// Each channel at most once, and one servo state per channel.
    pub closed spec fn wf(self) -> bool {
        &&& self.channels@.len() == self.servos@.len()
        &&& self.channels@.no_duplicates()
    }

    /// The channels of the group, in the order they were first added.
    pub closed spec fn channel_seq(self) -> Seq<u8> {
        self.channels@
    }

    /// The servo states, in the same order as `channel_seq`.
    pub closed spec fn servo_seq(self) -> Seq<S> {
        self.servos@
    }

    /// Whether the emergency stop has been triggered.
    pub closed spec fn is_stopped(self) -> bool {
        self.stopped
    }

    /// The group as a map from channel to servo state.
    pub open spec fn servo_map(self) -> Map<u8, S> {
        Map::new(
            |c: u8| self.channel_seq().contains(c),
            |c: u8| self.servo_seq()[self.channel_seq().index_of(c)],
        )
    }

    /// An empty, running group, and the writes that set up the timers for servos.
    pub fn new() -> (r: (ServoGroup<S>, Vec<RegWrite>))
        ensures
            r.0.wf(),
            r.0.channel_seq() == Seq::<u8>::empty(),
            !r.0.is_stopped(),
            r.1@ == timer_setup_writes(),
    {
        let mut writes: Vec<RegWrite> = Vec::new();
        let regs: [(u8, u8); 3] = [(0x44u8, 0x40u8), (0x45, 0x41), (0x46, 0x42)];
        let mut i: usize = 0;
        while i < 3
            invariant
                i <= 3,
                regs@ == seq![(0x44u8, 0x40u8), (0x45u8, 0x41u8), (0x46u8, 0x42u8)],
                writes@ == timer_setup_writes().subrange(0, 2 * i as int),
            decreases 3 - i,
        {
            let (per_reg, psc_reg) = regs[i];
            writes.push(reg_write(per_reg, 4095));
            writes.push(reg_write(psc_reg, 351));
            i = i + 1;
            assert(writes@ =~= timer_setup_writes().subrange(0, 2 * i as int));
        }
        assert(writes@ =~= timer_setup_writes());
        (ServoGroup { channels: Vec::new(), servos: Vec::new(), stopped: false }, writes)
    }

    /// Position of `channel` in the group, if present.
    fn find(&self, channel: u8) -> (r: Option<usize>)
        ensures
            match r {
                Some(i) => i < self.channel_seq().len() && self.channel_seq()[i as int] == channel,
                None => !self.channel_seq().contains(channel),
            },
    {
        let mut i: usize = 0;
        while i < self.channels.len()
            invariant
                i <= self.channels@.len(),
                forall|k: int| 0 <= k < i ==> self.channels@[k] != channel,
            decreases self.channels@.len() - i,
        {
            if self.channels[i] == channel {
                return Some(i);
            }
            i = i + 1;
        }
        None
    }

    /// Adds `servo` on `channel`, replacing the servo already on that channel
    /// (which keeps its place). Returns whether the caller sets the new servo
    /// to 0 degrees, which it does unless `disable_zero` is `Some(true)`.
    pub fn append(&mut self, servo: S, channel: u8, disable_zero: Option<bool>) -> (zero: bool)
        requires
            old(self).wf(),
        ensures
            zero == zeroes_on_append(disable_zero),
            final(self).wf(),
            final(self).servo_map() == old(self).servo_map().insert(channel, servo),
            final(self).is_stopped() == old(self).is_stopped(),
            old(self).channel_seq().contains(channel) ==> {
                let i = old(self).channel_seq().index_of(channel);
                &&& final(self).channel_seq() == old(self).channel_seq()
                &&& final(self).servo_seq() == old(self).servo_seq().update(i, servo)
            },
            !old(self).channel_seq().contains(channel) ==> {
                &&& final(self).channel_seq() == old(self).channel_seq().push(channel)
                &&& final(self).servo_seq() == old(self).servo_seq().push(servo)
            },
    {
        let ghost old_map = self.servo_map();
        match self.find(channel) {
            Some(i) => {
                proof {
                    lemma_index_of_unique(self.channels@, channel, i as int);
                }
                self.servos.set(i, servo);
                proof {
                    let cs = self.channels@;
                    assert forall|c: u8| #[trigger] cs.contains(c) implies self.servo_map()[c]
                        == old_map.insert(channel, servo)[c] by {
                        let k = choose|k: int| 0 <= k < cs.len() && cs[k] == c;
                        lemma_index_of_unique(cs, c, k);
                    }
                    assert(self.servo_map() =~= old_map.insert(channel, servo));
                }
            },
            None => {
                let ghost old_cs = self.channels@;
                self.channels.push(channel);
                self.servos.push(servo);
                proof {
                    lemma_push_no_duplicates(old_cs, channel);
                    let cs = self.channels@;
                    assert(cs[old_cs.len() as int] == channel);
                    assert forall|c: u8| #[trigger] cs.contains(c) implies self.servo_map()[c]
                        == old_map.insert(channel, servo)[c] by {
                        let k = choose|k: int| 0 <= k < cs.len() && cs[k] == c;
                        lemma_index_of_unique(cs, c, k);
                        if k < old_cs.len() {
                            assert(old_cs[k] == c);
                            lemma_index_of_unique(old_cs, c, k);
                        }
                    }
                    assert forall|c: u8| #[trigger] old_map.insert(channel, servo).dom().contains(c) implies cs.contains(c) by {
                        if c != channel {
                            assert(old_cs.contains(c));
                            let k = choose|k: int| 0 <= k < old_cs.len() && old_cs[k] == c;
                            assert(cs[k] == c);
                        }
                    }
                    assert(self.servo_map() =~= old_map.insert(channel, servo));
                }
            },
        }
        disable_zero != Some(true)
    }

    pub proof fn lemma_wf(self)
        requires
            self.wf(),
        ensures
            self.channel_seq().no_duplicates(),
            self.channel_seq().len() == self.servo_seq().len(),
    {
    }

    /// The group holds one servo per distinct channel: the number of servos is
    /// the number of channels in its map.
    pub proof fn lemma_servo_count(self)
        requires
            self.wf(),
        ensures
            self.servo_map().dom() == self.channel_seq().to_set(),
            self.servo_map().dom().len() == self.channel_seq().len(),
    {
        assert(self.servo_map().dom() =~= self.channel_seq().to_set());
        self.channel_seq().unique_seq_to_set();
    }

    /// The state of the servo on `channel`; `None` when the group has no servo there.
    pub fn servo(&self, channel: u8) -> (r: Option<&S>)
        requires
            self.wf(),
        ensures
            !self.servo_map().dom().contains(channel) ==> r is None,
            self.servo_map().dom().contains(channel) ==> (r matches Some(s) && *s
                == self.servo_map()[channel]),
    {
        match self.find(channel) {
            Some(i) => {
                proof {
                    lemma_index_of_unique(self.channels@, channel, i as int);
                }
                Some(&self.servos[i])
            },
            None => None,
        }
    }

    /// The state of the `i`-th servo, for updating in place.
    pub fn servo_at_mut(&mut self, i: usize) -> (s: &mut S)
        requires
            i < old(self).servo_seq().len(),
        ensures
            *s == old(self).servo_seq()[i as int],
            final(self).channel_seq() == old(self).channel_seq(),
            final(self).is_stopped() == old(self).is_stopped(),
            final(self).servo_seq() == old(self).servo_seq().update(i as int, *final(s)),
            final(self).wf() == old(self).wf(),
    {
        &mut self.servos[i]
    }

    /// The state of the servo on `channel`, for updating in place; `None` when
    /// the group has no servo on that channel.
    pub fn servo_mut(&mut self, channel: u8) -> (r: Option<&mut S>)
        requires
            old(self).wf(),
        ensures
            final(self).channel_seq() == old(self).channel_seq(),
            final(self).is_stopped() == old(self).is_stopped(),
            final(self).wf(),
            !old(self).channel_seq().contains(channel) ==> r is None && final(self).servo_seq()
                == old(self).servo_seq(),
            old(self).channel_seq().contains(channel) ==> (r matches Some(s) && {
                let i = old(self).channel_seq().index_of(channel);
                &&& *s == old(self).servo_seq()[i]
                &&& final(self).servo_seq() == old(self).servo_seq().update(i, *final(s))
            }),
    {
        match self.find(channel) {
            Some(i) => {
                proof {
                    let s = self.channels@;
                    assert(s.contains(channel));
                    let j = s.index_of(channel);
                    assert(s[j] == channel);
                }
                Some(&mut self.servos[i])
            },
            None => None,
        }
    }

    /// The number of servos in the group.
    pub fn get_num_servos(&self) -> (n: usize)
        ensures
            n == self.channel_seq().len(),
    {
        self.channels.len()
    }

    /// The channel of the `i`-th servo.
    pub fn channel_at(&self, i: usize) -> (c: u8)
        requires
            i < self.channel_seq().len(),
        ensures
            c == self.channel_seq()[i as int],
    {
        self.channels[i]
    }

    /// Whether the emergency stop has been triggered.
    pub fn stopped(&self) -> (r: bool)
        ensures
            r == self.is_stopped(),
    {
        self.stopped
    }

    /// Triggers the emergency stop. It stays triggered: no operation of the
    /// group clears it.
    pub fn estop(&mut self)
        ensures
            final(self).wf() == old(self).wf(),
            final(self).is_stopped(),
            final(self).channel_seq() == old(self).channel_seq(),
            final(self).servo_seq() == old(self).servo_seq(),
    {
        self.stopped = true;
    }

    /// The writes of one flush: for each servo, in order, its new pulse width
    /// (`pulse_widths[i]` for the `i`-th servo) to its channel's register.
    pub fn flush(&self, pulse_widths: &Vec<u16>) -> (writes: Vec<RegWrite>)
        requires
            pulse_widths@.len() == self.channel_seq().len(),
            forall|i: int| 0 <= i < self.channel_seq().len() ==> #[trigger] self.channel_seq()[i] < 0xe0,
        ensures
            writes@.len() == self.channel_seq().len(),
            forall|i: int|
                0 <= i < writes@.len() ==> #[trigger] writes@[i] == pulse_write_spec(
                    self.channel_seq()[i],
                    pulse_widths@[i],
                ),
    {
        let mut writes: Vec<RegWrite> = Vec::new();
        let mut i: usize = 0;
        while i < self.channels.len()
            invariant
                i <= self.channels@.len(),
                pulse_widths@.len() == self.channels@.len(),
                self.channels@ == self.channel_seq(),
                forall|k: int| 0 <= k < self.channel_seq().len() ==> #[trigger] self.channel_seq()[k] < 0xe0,
                writes@.len() == i,
                forall|k: int|
                    0 <= k < i ==> #[trigger] writes@[k] == pulse_write_spec(
                        self.channel_seq()[k],
                        pulse_widths@[k],
                    ),
            decreases self.channels@.len() - i,
        {
            let c = self.channels[i];
            assert(self.channel_seq()[i as int] < 0xe0);
            writes.push(pulse_write(c, pulse_widths[i]));
            i = i + 1;
        }
        writes
    }

    /// One control tick: `None` once the emergency stop has been triggered
    /// (nothing is written), otherwise the writes of a flush with these pulse widths.
    pub fn tick(&self, pulse_widths: &Vec<u16>) -> (r: Option<Vec<RegWrite>>)
        requires
            pulse_widths@.len() == self.channel_seq().len(),
            forall|i: int| 0 <= i < self.channel_seq().len() ==> #[trigger] self.channel_seq()[i] < 0xe0,
        ensures
            self.is_stopped() ==> r is None,
            !self.is_stopped() ==> (r matches Some(writes) && writes@.len()
                == self.channel_seq().len() && forall|i: int|
                0 <= i < writes@.len() ==> #[trigger] writes@[i] == pulse_write_spec(
                    self.channel_seq()[i],
                    pulse_widths@[i],
                )),
    {
        if self.stopped {
            return None;
        }
        Some(self.flush(pulse_widths))
    }
}

proof fn lemma_index_of_unique(s: Seq<u8>, c: u8, i: int)
    requires
        s.no_duplicates(),
        0 <= i < s.len(),
        s[i] == c,
    ensures
        s.contains(c),
        s.index_of(c) == i,
{
    assert(s.contains(c));
    let j = s.index_of(c);
    assert(s[j] == c);
}

proof fn lemma_push_no_duplicates(s: Seq<u8>, c: u8)
    requires
        s.no_duplicates(),
        !s.contains(c),
    ensures
        s.push(c).no_duplicates(),
{
    assert forall|i: int, j: int|
        0 <= i < s.push(c).len() && 0 <= j < s.push(c).len() && i != j implies s.push(c)[i]
        != s.push(c)[j] by {
        if i < s.len() && j < s.len() {
        } else if i < s.len() {
            assert(s.contains(s[i]));
        } else if j < s.len() {
            assert(s.contains(s[j]));
        }
    }
}

} // verus!

verus! {

/// A pulse write puts register `0x20 + channel` on the bus, then the pulse
/// width high byte first.
pub proof fn pulse_write_on_the_wire(channel: u8, pulse_width: u16)
    requires
        channel < 0xe0,
    ensures
        crate::bus::wire_bytes(pulse_write_spec(channel, pulse_width)) == seq![
            (0x20 + channel) as u8,
            (pulse_width / 256) as u8,
            (pulse_width % 256) as u8,
        ],
{
    crate::bus::reg_write_is_big_endian((0x20 + channel) as u8, pulse_width);
}

} // verus!
