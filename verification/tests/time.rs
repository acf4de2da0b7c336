use kernel::time::{tick, Clock, SysTime, PIT_HZ};

#[test]
fn clock_starts_at_zero_and_ticks() {
    let mut clock = Clock::new();
    assert_eq!(SysTime::now(&clock), SysTime(0));
    tick(&mut clock);
    tick(&mut clock);
    tick(&mut clock);
    assert_eq!(SysTime::now(&clock), SysTime(3));
}

#[test]
fn tick_wraps_around() {
    let mut clock = Clock { ticks: usize::MAX };
    tick(&mut clock);
    assert_eq!(clock.ticks, 0);
}

#[test]
fn after_ms_adds_ticks() {
    assert_eq!(SysTime(5).after_ms(0), SysTime(5));
    assert_eq!(SysTime(5).after_ms(20), SysTime(5 + 20 * PIT_HZ / 1000));
    assert_eq!(SysTime(0).after_ms(1000), SysTime(PIT_HZ));
    assert_eq!(SysTime(100).after_ms(1), SysTime(101));
}

#[test]
fn millis_of_ticks() {
    assert_eq!(SysTime(0).millis(), 0);
    assert_eq!(SysTime(1500).millis(), 1500 * 1000 / PIT_HZ);
}

#[test]
fn times_are_ordered_by_their_ticks() {
    assert!(SysTime(1) < SysTime(2));
    assert!(SysTime(2) > SysTime(1));
    assert!(SysTime(2) <= SysTime(2));
    assert!(SysTime(2) == SysTime(2));
    assert!(!(SysTime(3) < SysTime(2)));
    assert_eq!(SysTime(1).partial_cmp(&SysTime(2)), Some(std::cmp::Ordering::Less));
    assert_eq!(SysTime(2).partial_cmp(&SysTime(2)), Some(std::cmp::Ordering::Equal));
    assert_eq!(SysTime(3).partial_cmp(&SysTime(2)), Some(std::cmp::Ordering::Greater));
    assert_eq!(SysTime(3).cmp(&SysTime(2)), std::cmp::Ordering::Greater);
    assert_eq!(SysTime(7).max(SysTime(9)), SysTime(9));
}

#[test]
fn waiting_loop_ends() {
    let mut clock = Clock::new();
    let start = SysTime::now(&clock);
    let mut ticks = 0;
    while SysTime::now(&clock) < start.after_ms(20) {
        tick(&mut clock);
        ticks += 1;
    }
    assert_eq!(ticks, 20 * PIT_HZ / 1000);
}
