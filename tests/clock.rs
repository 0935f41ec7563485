use wifi_tui::event::{after_wait, wait_for, TickClock};

#[test]
fn wait_is_time_left_until_deadline() {
    let clock = TickClock::new(250);
    assert_eq!(clock, TickClock { deadline: 250, interval: 250 });
    assert_eq!(wait_for(&clock, 0), 250);
    assert_eq!(wait_for(&clock, 100), 150);
    assert_eq!(wait_for(&clock, 250), 0);
    assert_eq!(wait_for(&clock, 900), 0);
}

#[test]
fn key_before_deadline_keeps_cadence() {
    let clock = TickClock::new(250);
    let (tick, next) = after_wait(&clock, 120);
    assert!(!tick);
    assert_eq!(next, clock);
    assert_eq!(wait_for(&next, 120), 130);
}

#[test]
fn deadline_moves_by_one_interval() {
    let clock = TickClock::new(250);
    let (tick, next) = after_wait(&clock, 260);
    assert!(tick);
    assert_eq!(next, TickClock { deadline: 500, interval: 250 });
    let (tick, next) = after_wait(&next, 1000);
    assert!(tick);
    assert_eq!(next.deadline, 750);
    assert_eq!(wait_for(&next, 1000), 0);
}
