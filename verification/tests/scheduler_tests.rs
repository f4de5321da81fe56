use trigger_countdown::schedule::TriggerCountdownUITime;
use trigger_countdown::scheduler::{
    scheduler_step, Command, DispatchAction, SchedulerState, WaitOutcome,
};

#[test]
fn commands_are_processed_in_order_and_quit_terminates() {
    // [ShowSettings, ShowSettings, Quit]: the first two each dispatch the
    // settings page, the third terminates the loop with no action.
    let schedule = TriggerCountdownUITime::at(10, 0);
    let events = [
        WaitOutcome::Delivered(Command::ShowSettings),
        WaitOutcome::Delivered(Command::ShowSettings),
        WaitOutcome::Delivered(Command::Quit),
    ];
    let mut actions: Vec<DispatchAction> = Vec::new();
    let mut processed: usize = 0;
    for event in events {
        let (state, action) = scheduler_step(&schedule, event, 0, false);
        processed += 1;
        if let Some(a) = action {
            actions.push(a);
        }
        if state == SchedulerState::Terminated {
            break;
        }
    }
    assert_eq!(processed, 3);
    assert_eq!(
        actions,
        vec![DispatchAction::ShowSettingsPage, DispatchAction::ShowSettingsPage]
    );
}

#[test]
fn disconnect_terminates_like_quit() {
    let schedule = TriggerCountdownUITime::at(10, 0);
    let (state, action) = scheduler_step(&schedule, WaitOutcome::Disconnected, 40000, false);
    assert_eq!(state, SchedulerState::Terminated);
    assert_eq!(action, None);
}

#[test]
fn visible_window_suppresses_the_countdown() {
    // now > time_of_day, but the window is already visible: no dispatch.
    let schedule = TriggerCountdownUITime::at(10, 0);
    let (state, action) = scheduler_step(&schedule, WaitOutcome::TimedOut, 36001, true);
    assert_eq!(state, SchedulerState::Waiting);
    assert_eq!(action, None);

    // Same wake with the window hidden: the countdown fires.
    let (state, action) = scheduler_step(&schedule, WaitOutcome::TimedOut, 36001, false);
    assert_eq!(state, SchedulerState::Waiting);
    assert_eq!(action, Some(DispatchAction::ShowCountdown));
}

#[test]
fn timeout_before_the_instant_dispatches_nothing() {
    let schedule = TriggerCountdownUITime::at(10, 0);
    let (state, action) = scheduler_step(&schedule, WaitOutcome::TimedOut, 36000, false);
    assert_eq!(state, SchedulerState::Waiting);
    assert_eq!(action, None);
}

#[test]
fn one_minute_trigger_fires_once_then_waits_a_day() {
    // Trigger set one minute ahead, no repeat override; simulate the loop
    // with a scripted clock and no commands.
    let now0: u64 = 8 * 3600 + 20 * 60;
    let mut schedule = TriggerCountdownUITime::at(8, 21);
    let mut dispatches: usize = 0;

    // First cycle: sleep until the trigger instant.
    let timeout = schedule.duration_until_next(now0);
    assert_eq!(timeout, 60);

    // The wait times out just past the instant; the countdown fires once.
    let now1 = now0 + 61;
    let (state, action) = scheduler_step(&schedule, WaitOutcome::TimedOut, now1, false);
    assert_eq!(state, SchedulerState::Waiting);
    assert_eq!(action, Some(DispatchAction::ShowCountdown));
    dispatches += 1;

    // Next cycle: the schedule advances a full day, so the new sleep is
    // just short of 24 hours.
    let timeout = schedule.duration_until_next(now1);
    assert_eq!(timeout, 86400 - 61 + 60);

    // A spurious wake later the same day dispatches nothing further.
    let now2 = now1 + 3600;
    let (state, action) = scheduler_step(&schedule, WaitOutcome::TimedOut, now2, false);
    assert_eq!(state, SchedulerState::Waiting);
    assert_eq!(action, None);

    assert_eq!(dispatches, 1);
}
