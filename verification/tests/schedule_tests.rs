use trigger_countdown::schedule::TriggerCountdownUITime;

#[test]
fn at_builds_the_trigger_instant() {
    let t = TriggerCountdownUITime::at(17, 0);
    assert_eq!(t.time, 17 * 3600);
    assert_eq!(t.repeat_duration_minutes, None);

    let u = TriggerCountdownUITime::at(8, 21);
    assert_eq!(u.time, 8 * 3600 + 21 * 60);
}

#[test]
fn pending_trigger_returns_exact_delta() {
    // now <= time_of_day: the exact remaining delta, and no mutation.
    let mut t = TriggerCountdownUITime::at(10, 0);
    let d = t.duration_until_next(30000);
    assert_eq!(d, 6000);
    assert_eq!(t.time, 36000);

    // now equal to the trigger instant: zero, and no mutation.
    let d = t.duration_until_next(36000);
    assert_eq!(d, 0);
    assert_eq!(t.time, 36000);
}

#[test]
fn passed_trigger_advances_daily() {
    // Past trigger with the default daily repeat: one 24-hour step.
    let mut t = TriggerCountdownUITime::at(1, 0);
    let d = t.duration_until_next(10000);
    assert_eq!(t.time, 3600 + 86400);
    assert_eq!(d, 3600 + 86400 - 10000);
}

#[test]
fn passed_trigger_advances_by_whole_repeat_steps() {
    // The instant lies 6400 s in the past with a one-minute repeat: the
    // schedule must step repeatedly, not once, to land at or past `now`.
    let mut t = TriggerCountdownUITime::at(1, 0);
    t.repeat_in(1);
    let d = t.duration_until_next(10000);
    assert_eq!(t.time, 10020);
    assert_eq!((t.time - 3600) % 60, 0);
    assert!(t.time >= 10000);
    assert_eq!(d, 20);
}

#[test]
fn is_now_at_compares_against_the_instant() {
    let t = TriggerCountdownUITime::at(10, 0);
    assert!(!t.is_now_at(35999));
    assert!(!t.is_now_at(36000));
    assert!(t.is_now_at(36001));
}

#[test]
fn wall_clock_duration_is_bounded() {
    // Whatever the clock reads, a daily schedule sleeps at most one day.
    let mut t = TriggerCountdownUITime::at(0, 0);
    let d = t.sleep_duration_from_now();
    assert!(d <= 86400);
    assert_eq!(t.repeat_duration_minutes, None);

    let mut u = TriggerCountdownUITime::at(23, 59);
    u.repeat_in(1);
    let d = u.sleep_duration_from_now();
    assert!(d <= 86400);

    // The visibility check against the clock returns without panicking.
    let _ = t.is_now();

    // An instant advanced past the end of the day can never be due, whatever
    // the clock reads.
    let mut w = TriggerCountdownUITime::at(23, 59);
    let _ = w.duration_until_next(86399);
    assert!(w.time >= 86399);
    assert!(!w.is_now());
}
