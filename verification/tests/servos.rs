use picrawler::bus::RegWrite;
use picrawler::servo_group::{pulse_write, ServoGroup};

#[test]
fn new_group_sets_up_timers() {
    let (g, writes) = ServoGroup::<u32>::new();
    assert_eq!(g.get_num_servos(), 0);
    assert!(!g.stopped());
    let expected: Vec<RegWrite> = [(0x44u8, 4095u16), (0x40, 351), (0x45, 4095), (0x41, 351), (0x46, 4095), (0x42, 351)]
        .iter()
        .map(|&(reg, v)| RegWrite { reg, word: v.swap_bytes() })
        .collect();
    assert_eq!(writes, expected);
}

#[test]
fn append_zeroes_unless_disabled() {
    let (mut g, _) = ServoGroup::<u32>::new();
    assert!(g.append(1, 0, None));
    assert!(g.append(2, 1, Some(false)));
    assert!(!g.append(3, 2, Some(true)));
    assert_eq!(g.get_num_servos(), 3);
}

#[test]
fn append_same_channel_replaces() {
    let (mut g, _) = ServoGroup::<u32>::new();
    g.append(10, 4, None);
    g.append(20, 7, None);
    g.append(30, 4, None);
    assert_eq!(g.get_num_servos(), 2);
    assert_eq!(g.channel_at(0), 4);
    assert_eq!(g.channel_at(1), 7);
    assert_eq!(*g.servo_mut(4).unwrap(), 30);
    assert_eq!(*g.servo_mut(7).unwrap(), 20);
    assert!(g.servo_mut(5).is_none());
}

#[test]
fn servo_mut_updates_in_place() {
    let (mut g, _) = ServoGroup::<u32>::new();
    g.append(1, 3, None);
    g.append(2, 9, None);
    *g.servo_mut(9).unwrap() = 99;
    *g.servo_at_mut(0) += 10;
    assert_eq!(*g.servo_mut(9).unwrap(), 99);
    assert_eq!(*g.servo_mut(3).unwrap(), 11);
}

#[test]
fn flush_writes_each_channel_register() {
    let (mut g, _) = ServoGroup::<u32>::new();
    g.append(0, 0, None);
    g.append(0, 11, None);
    let writes = g.flush(&vec![307, 0x0102]);
    assert_eq!(
        writes,
        vec![
            RegWrite { reg: 0x20, word: 307u16.swap_bytes() },
            RegWrite { reg: 0x2b, word: 0x0201 },
        ]
    );
    assert_eq!(g.tick(&vec![307, 0x0102]), Some(writes));
}

#[test]
fn estop_stops_every_later_tick() {
    let (mut g, _) = ServoGroup::<u32>::new();
    g.append(0, 2, None);
    assert!(g.tick(&vec![100]).is_some());
    g.estop();
    assert!(g.stopped());
    assert_eq!(g.tick(&vec![100]), None);
    g.append(1, 3, None);
    *g.servo_mut(2).unwrap() = 5;
    assert!(g.stopped());
    assert_eq!(g.tick(&vec![1, 2]), None);
}

#[test]
fn pulse_register_of_channel() {
    assert_eq!(pulse_write(0, 0x1234), RegWrite { reg: 0x20, word: 0x3412 });
    assert_eq!(pulse_write(0xdf, 1), RegWrite { reg: 0xff, word: 0x0100 });
}
