use picrawler::adc::{raw_from_bytes, read_request, CHANNEL};
use picrawler::bus::{reg_write, swap_bytes, RegWrite};
use picrawler::device::Pins;
use picrawler::pwm::Pwm;

#[test]
fn pin_numbers() {
    assert_eq!(Pins::D0.value(), 17);
    assert_eq!(Pins::D1.value(), 4);
    assert_eq!(Pins::D2.value(), 27);
    assert_eq!(Pins::D3.value(), 22);
    assert_eq!(Pins::Sw.value(), 25);
    assert_eq!(Pins::User.value(), 25);
    assert_eq!(Pins::Led.value(), 26);
    assert_eq!(Pins::BoardType.value(), 12);
    assert_eq!(Pins::Rst.value(), 16);
    assert_eq!(Pins::BleInt.value(), 13);
    assert_eq!(Pins::BleRst.value(), 20);
    assert_eq!(Pins::McuRst.value(), 5);
    assert_eq!(Pins::Ce.value(), 8);
}

#[test]
fn adc_selectors_and_commands() {
    let all = [CHANNEL::ADC0, CHANNEL::ADC1, CHANNEL::ADC2, CHANNEL::ADC3, CHANNEL::ADC4];
    let selectors = [0x170000u32, 0x160000, 0x150000, 0x140000, 0x130000];
    let commands = [0x17u8, 0x16, 0x15, 0x14, 0x13];
    for i in 0..5 {
        assert_eq!(all[i].value(), selectors[i]);
        assert_eq!(all[i].command(), commands[i]);
        assert_eq!(all[i].command(), (all[i].value() >> 16) as u8);
        assert_eq!(read_request(all[i]), RegWrite { reg: commands[i], word: 0 });
    }
}

#[test]
fn adc_reading_is_high_byte_first() {
    assert_eq!(raw_from_bytes([0x0f, 0xff]), 4095);
    assert_eq!(raw_from_bytes([0x12, 0x34]), 0x1234);
    assert_eq!(raw_from_bytes([0, 0]), 0);
    assert_eq!(raw_from_bytes([0xff, 0xff]), 0xffff);
}

#[test]
fn byte_swap() {
    assert_eq!(swap_bytes(0x1234), 0x3412);
    assert_eq!(swap_bytes(0x00ff), 0xff00);
    assert_eq!(swap_bytes(4095), 4095u16.swap_bytes());
    for v in [0u16, 1, 351, 4095, 0x8001, 0xffff] {
        assert_eq!(swap_bytes(v), v.swap_bytes());
        assert_eq!(swap_bytes(swap_bytes(v)), v);
    }
}

#[test]
fn register_write_sends_value_high_byte_first() {
    let w = reg_write(0x20, 0x0102);
    assert_eq!(w, RegWrite { reg: 0x20, word: 0x0201 });
    // SMBus puts the low byte of the word on the wire first.
    let wire = [w.reg, (w.word & 0xff) as u8, (w.word >> 8) as u8];
    assert_eq!(wire, [0x20, 0x01, 0x02]);
}

#[test]
fn pwm_rejects_channel_above_eleven() {
    match Pwm::new(12, 4095, 351) {
        Err(e) => assert_eq!(e, "Channel 12 is out of range (0-11)"),
        Ok(_) => panic!("channel 12 accepted"),
    }
    match Pwm::new(255, 4095, 351) {
        Err(e) => assert_eq!(e, "Channel 255 is out of range (0-11)"),
        Ok(_) => panic!("channel 255 accepted"),
    }
}

#[test]
fn pwm_new_programs_fifty_hertz() {
    let (pwm, writes) = Pwm::new(5, 4095, 351).unwrap();
    assert_eq!(pwm.get_freq(), 50);
    assert_eq!(pwm.get_period(), 4095);
    assert_eq!(pwm.channel(), 5);
    assert_eq!(
        writes,
        vec![
            RegWrite { reg: 0x41, word: 351u16.swap_bytes() },
            RegWrite { reg: 0x45, word: 4095u16.swap_bytes() },
        ]
    );
}

#[test]
fn pwm_timers_by_channel() {
    for ch in 0u8..12 {
        let (_, writes) = Pwm::new(ch, 1000, 7).unwrap();
        let t = ch / 4;
        assert_eq!(writes[0].reg, 0x40 + t);
        assert_eq!(writes[1].reg, 0x44 + t);
    }
}

#[test]
fn pwm_set_freq_and_pulse_width() {
    let (mut pwm, _) = Pwm::new(11, 2000, 1).unwrap();
    let writes = pwm.set_freq(100, 359);
    assert_eq!(pwm.get_freq(), 100);
    assert_eq!(
        writes,
        vec![
            RegWrite { reg: 0x42, word: 359u16.swap_bytes() },
            RegWrite { reg: 0x46, word: 2000u16.swap_bytes() },
        ]
    );
    let w = pwm.pulse_width(0x0123);
    assert_eq!(w, RegWrite { reg: 0x2b, word: 0x2301 });
    assert_eq!(pwm.get_freq(), 100);
}
