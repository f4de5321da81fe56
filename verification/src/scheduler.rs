use vstd::prelude::*;

use crate::schedule::TriggerCountdownUITime;

verus! {

/// A control message from the presentation layer's menu into the scheduler.
#[derive(Clone, Copy, Debug, PartialEq, Eq, Structural)]
pub enum Command {
    ShowSettings,
    Quit,
}

/// What one bounded wait on the command channel produced: a delivered
/// command, a timeout, or a disconnected producer side.
#[derive(Clone, Copy, Debug, PartialEq, Eq, Structural)]
pub enum WaitOutcome {
    Delivered(Command),
    TimedOut,
    Disconnected,
}

/// A one-shot request for the presentation thread to mutate its own state.
#[derive(Clone, Copy, Debug, PartialEq, Eq, Structural)]
pub enum DispatchAction {
    ShowCountdown,
    ShowSettingsPage,
}

/// The scheduler's state machine: it waits until told to quit.
#[derive(Clone, Copy, Debug, PartialEq, Eq, Structural)]
pub enum SchedulerState {
    Waiting,
    Terminated,
}

/// What one wake of the scheduler decides, given the wait's outcome, the
/// current time of day, and whether the presentation window is visible:
///
/// - `Quit`, and a disconnected channel alike, end the loop with no action;
/// - `ShowSettings` requests the settings page and leaves the schedule alone;
/// - a timeout requests the countdown exactly when the trigger instant has
///   passed and the window is not already visible.
pub open spec fn spec_scheduler_step(
    schedule: TriggerCountdownUITime,
    outcome: WaitOutcome,
    now: u64,
    window_visible: bool,
) -> (SchedulerState, Option<DispatchAction>) {
    match outcome {
        WaitOutcome::Delivered(Command::Quit) => (SchedulerState::Terminated, None),
        WaitOutcome::Disconnected => (SchedulerState::Terminated, None),
        WaitOutcome::Delivered(Command::ShowSettings) => (
            SchedulerState::Waiting,
            Some(DispatchAction::ShowSettingsPage),
        ),
        WaitOutcome::TimedOut => (
            SchedulerState::Waiting,
            if now > schedule.time && !window_visible {
                Some(DispatchAction::ShowCountdown)
            } else {
                None
            },
        ),
    }
}

/// One decision of the scheduler loop. The caller waits on the command
/// channel with the timeout from `duration_until_next`, then hands in the
/// outcome, a fresh reading of the clock, and the window's visibility; it
/// performs the returned action and stops once the state is `Terminated`.
pub fn scheduler_step(
    schedule: &TriggerCountdownUITime,
    outcome: WaitOutcome,
    now: u64,
    window_visible: bool,
) -> (r: (SchedulerState, Option<DispatchAction>))
    ensures
        r == spec_scheduler_step(*schedule, outcome, now, window_visible),
        outcome == WaitOutcome::Delivered(Command::Quit) ==> r.0 == SchedulerState::Terminated,
        outcome == WaitOutcome::Disconnected ==> r.0 == SchedulerState::Terminated,
        outcome == WaitOutcome::Delivered(Command::ShowSettings) ==> r == (
            SchedulerState::Waiting,
            Some(DispatchAction::ShowSettingsPage),
        ),
        outcome == WaitOutcome::TimedOut ==> r.0 == SchedulerState::Waiting && (r.1 == Some(
            DispatchAction::ShowCountdown,
        ) <==> (now > schedule.time && !window_visible)),
{
    match outcome {
        WaitOutcome::Delivered(Command::Quit) => (SchedulerState::Terminated, None),
        WaitOutcome::Disconnected => (SchedulerState::Terminated, None),
        WaitOutcome::Delivered(Command::ShowSettings) => (
            SchedulerState::Waiting,
            Some(DispatchAction::ShowSettingsPage),
        ),
        WaitOutcome::TimedOut => {
            let fire = schedule.is_now_at(now) && !window_visible;
            (
                SchedulerState::Waiting,
                if fire {
                    Some(DispatchAction::ShowCountdown)
                } else {
                    None
                },
            )
        },
    }
}

/// One pass of the scheduler loop over a queue of wait outcomes, started in
/// `Waiting`: the outcomes are decided in order by `spec_scheduler_step`,
/// the dispatched actions accumulate in that order, and the run stops at
/// the first outcome that decides `Terminated`, consuming nothing after it.
/// A decision never changes the schedule, so one schedule, clock reading
/// and visibility stand for the whole pass. The result is the actions in
/// dispatch order, the final state, and how many outcomes were consumed.
pub open spec fn spec_scheduler_run(
    schedule: TriggerCountdownUITime,
    outcomes: Seq<WaitOutcome>,
    now: u64,
    window_visible: bool,
) -> (Seq<DispatchAction>, SchedulerState, int)
    decreases outcomes.len(),
{
    if outcomes.len() == 0 {
        (Seq::<DispatchAction>::empty(), SchedulerState::Waiting, 0)
    } else {
        let first = spec_scheduler_step(schedule, outcomes[0], now, window_visible);
        let acts = match first.1 {
            Some(a) => seq![a],
            None => Seq::<DispatchAction>::empty(),
        };
        if first.0 is Terminated {
            (acts, SchedulerState::Terminated, 1)
        } else {
            let rest = spec_scheduler_run(
                schedule,
                outcomes.subrange(1, outcomes.len() as int),
                now,
                window_visible,
            );
            (acts + rest.0, rest.1, 1 + rest.2)
        }
    }
}

/// Command ordering: a queue of `ShowSettings`, `ShowSettings`, `Quit`, in
/// whatever wakes it arrives, is consumed in that order — the settings page
/// is dispatched twice, in order, the schedule is never consulted, and the
/// run terminates on the third command with nothing consumed after it.
pub proof fn lemma_command_ordering(
    schedule: TriggerCountdownUITime,
    now: u64,
    window_visible: bool,
)
    ensures
        ({
            let outcomes = seq![
                WaitOutcome::Delivered(Command::ShowSettings),
                WaitOutcome::Delivered(Command::ShowSettings),
                WaitOutcome::Delivered(Command::Quit),
            ];
            spec_scheduler_run(schedule, outcomes, now, window_visible) == (
                seq![DispatchAction::ShowSettingsPage, DispatchAction::ShowSettingsPage],
                SchedulerState::Terminated,
                3int,
            )
        }),
{
    let outcomes = seq![
        WaitOutcome::Delivered(Command::ShowSettings),
        WaitOutcome::Delivered(Command::ShowSettings),
        WaitOutcome::Delivered(Command::Quit),
    ];
    let tail1 = outcomes.subrange(1, 3);
    let tail2 = tail1.subrange(1, 2);
    assert(tail1 =~= seq![
        WaitOutcome::Delivered(Command::ShowSettings),
        WaitOutcome::Delivered(Command::Quit),
    ]);
    assert(tail2 =~= seq![WaitOutcome::Delivered(Command::Quit)]);
    let r1 = spec_scheduler_run(schedule, tail2, now, window_visible);
    assert(r1 == (Seq::<DispatchAction>::empty(), SchedulerState::Terminated, 1int));
    let r2 = spec_scheduler_run(schedule, tail1, now, window_visible);
    assert(r2.0 =~= seq![DispatchAction::ShowSettingsPage]);
    assert(r2.1 == SchedulerState::Terminated && r2.2 == 2);
    let r3 = spec_scheduler_run(schedule, outcomes, now, window_visible);
    assert(r3.0 =~= seq![
        DispatchAction::ShowSettingsPage,
        DispatchAction::ShowSettingsPage,
    ]);
    assert(r3.1 == SchedulerState::Terminated && r3.2 == 3);
}

/// One fire per day: a daily schedule (no repeat override) whose wake found
/// `now` past the instant dispatches the countdown on that wake; once the
/// sleep is then recomputed — the premises on `advanced` are exactly what
/// `duration_until_next` ensures at `now` — the instant lands one full day
/// after the missed one, and every wake up to that new instant decides no
/// further countdown.
pub proof fn lemma_one_fire_then_next_day(
    fired: TriggerCountdownUITime,
    advanced: TriggerCountdownUITime,
    now: u64,
    later: u64,
)
    requires
        fired.wf(),
        fired.repeat_duration_minutes is None,
        now < 86400,
        fired.time < now,
        advanced.repeat_duration_minutes == fired.repeat_duration_minutes,
        advanced.time >= now,
        advanced.time < now + fired.repeat_seconds(),
        (advanced.time - fired.time) % fired.repeat_seconds() == 0,
        later <= advanced.time,
    ensures
        spec_scheduler_step(fired, WaitOutcome::TimedOut, now, false).1 == Some(
            DispatchAction::ShowCountdown,
        ),
        advanced.time == fired.time + 86400,
        spec_scheduler_step(advanced, WaitOutcome::TimedOut, later, false).1 is None,
{
    let x = advanced.time - fired.time;
    assert(fired.repeat_seconds() == 86400);
    assert(0 < x < 2 * 86400);
    assert(x == 86400 * (x / 86400) + x % 86400) by {
        vstd::arithmetic::div_mod::lemma_fundamental_div_mod(x, 86400);
    }
    assert(x / 86400 == 1);
    assert(x == 86400);
}

/// Visibility guard: at a timeout with the presentation window already
/// visible, no countdown is dispatched, even when the trigger instant has
/// passed, and the scheduler keeps waiting.
pub proof fn lemma_visibility_guard(schedule: TriggerCountdownUITime, now: u64)
    ensures
        spec_scheduler_step(schedule, WaitOutcome::TimedOut, now, true) == (
            SchedulerState::Waiting,
            None::<DispatchAction>,
        ),
{
}

} // verus!
