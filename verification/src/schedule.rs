use vstd::prelude::*;

use chrono::Timelike;

verus! {

/// Seconds in one day; the default repeat interval is a daily alarm.
pub const SECONDS_PER_DAY: u64 = 86400;

/// The trigger schedule: the next unfired trigger instant, in seconds on the
/// axis of the current day's midnight, together with an optional repeat
/// interval in minutes (`None` means repeat every 24 hours).
///
/// The instant may run past 86400 once the schedule has been advanced: it
/// then stands for a next-day instant on the same axis.
pub struct TriggerCountdownUITime {
    pub time: u64,
    pub repeat_duration_minutes: Option<u64>,
}

impl TriggerCountdownUITime {
    /// The repeat interval in seconds: the explicit interval, or one day.
    pub open spec fn repeat_seconds(self) -> int {
        match self.repeat_duration_minutes {
            Some(m) => m * 60,
            None => 86400,
        }
    }

    /// Bounds under which the advancement arithmetic cannot overflow.
    pub open spec fn wf(self) -> bool {
        &&& self.time <= 0x20_0000_0000_0000
        &&& match self.repeat_duration_minutes {
            Some(m) => 1 <= m && m <= 0x4000_0000_0000,
            None => true,
        }
    }

    /// Creates a new trigger time from hours and minutes
    pub fn at(hour: u32, minute: u32) -> (r: Self)
        requires
            hour < 24,
            minute < 60,
        ensures
            r.time == hour * 3600 + minute * 60,
            r.repeat_duration_minutes is None,
            r.wf(),
    {
        Self {
            time: (hour as u64) * 3600 + (minute as u64) * 60,
            repeat_duration_minutes: None,
        }
    }

    /// Overrides the daily repeat with an interval of `minutes` minutes.
    pub fn repeat_in(&mut self, minutes: i64)
        requires
            old(self).wf(),
            1 <= minutes,
            minutes <= 0x4000_0000_0000,
        ensures
            final(self).time == old(self).time,
            final(self).repeat_duration_minutes == Some(minutes as u64),
            final(self).wf(),
    {
        self.repeat_duration_minutes = Some(minutes as u64);
    }

    /// How long to sleep from `now` (seconds past midnight) until the next
    /// trigger instant.
    ///
    /// When the trigger instant has already passed, the schedule is advanced
    /// by whole repeat steps, as many as it takes to move it to `now` or
    /// later, so the returned duration is never negative — even when the
    /// instant lies much further in the past than one repeat interval.
    pub fn duration_until_next(&mut self, now: u64) -> (r: u64)
        requires
            old(self).wf(),
            now < 86400,
        ensures
            final(self).wf(),
            final(self).repeat_duration_minutes == old(self).repeat_duration_minutes,
            final(self).time >= now,
            final(self).time >= old(self).time,
            (final(self).time - old(self).time) % old(self).repeat_seconds() == 0,
            old(self).time >= now ==> final(self).time == old(self).time,
            old(self).time < now ==> final(self).time < now + old(self).repeat_seconds(),
            r == final(self).time - now,
    {
        let step: u64 = match self.repeat_duration_minutes {
            Some(m) => m * 60,
            None => SECONDS_PER_DAY,
        };
        let ghost orig: TriggerCountdownUITime = *self;
        proof {
            assert(step == orig.repeat_seconds());
            assert(step >= 60);
            vstd::arithmetic::div_mod::lemma_small_mod(0nat, step as nat);
        }
        while self.time < now
            invariant
                orig.wf(),
                now < 86400,
                step == orig.repeat_seconds(),
                self.repeat_duration_minutes == orig.repeat_duration_minutes,
                self.time >= orig.time,
                (self.time - orig.time) % (step as int) == 0,
                orig.time >= now ==> self.time == orig.time,
                self.time == orig.time || self.time < now + step,
                self.wf(),
            decreases (if self.time < now { now - self.time } else { 0int }),
        {
            proof {
                vstd::arithmetic::div_mod::lemma_mod_add_multiples_vanish(
                    self.time - orig.time,
                    step as int,
                );
            }
            self.time = self.time + step;
        }
        self.time - now
    }

    /// Whether a caller-supplied current time lies past the trigger instant:
    /// the post-advancement check behind `is_now`.
    pub fn is_now_at(&self, now: u64) -> (r: bool)
        ensures
            r == (now > self.time),
    {
        now > self.time
    }

    /// What one clock reading decides: `r` is the reading, a second of the
    /// day, compared against the trigger instant.
    pub open spec fn decided_by_reading(self, now: u64, r: bool) -> bool {
        now < 86400 && r == (now > self.time)
    }

    /// Checks current time against time to trigger UI
    ///
    /// The result is `is_now_at` applied to some second of the day — the one
    /// the clock returned; an instant at or past the end of the day can
    /// therefore never be due.
    pub fn is_now(&self) -> (r: bool)
        ensures
            exists|now: u64| self.decided_by_reading(now, r),
            self.time >= 86399 ==> r == false,
    {
        let now = current_seconds_of_day();
        let r = self.is_now_at(now);
        proof {
            assert(self.decided_by_reading(now, r));
        }
        r
    }

    /// Returns duration to sleep from current time until next trigger time.
    /// UI triggers once per day with this setup
    ///
    /// Reads the wall clock and applies `duration_until_next`; every clause
    /// below holds whatever second of the day the clock returned.
    pub fn sleep_duration_from_now(&mut self) -> (r: u64)
        requires
            old(self).wf(),
        ensures
            final(self).wf(),
            final(self).repeat_duration_minutes == old(self).repeat_duration_minutes,
            final(self).time >= old(self).time,
            (final(self).time - old(self).time) % old(self).repeat_seconds() == 0,
            final(self).time - 86400 < r <= final(self).time,
            final(self).time != old(self).time ==> r < old(self).repeat_seconds(),
    {
        let now = current_seconds_of_day();
        self.duration_until_next(now)
    }
}

/// Relies on chrono: `Local::now().naive_local().time()` is the current
/// wall-clock time of day, and `Timelike::num_seconds_from_midnight` maps it
/// to the number of non-leap seconds past midnight, always below 86400.
///
/// chrono offers no fallible reading of the local time: on a system clock
/// outside its representable range (before the Unix epoch or in the very
/// far future) the call chain aborts the process instead of returning, so a
/// clock fault cannot be surfaced here as a value.
#[verifier::external_body]
fn current_seconds_of_day() -> (r: u64)
    ensures
        r < 86400,
{
    chrono::Local::now().naive_local().time().num_seconds_from_midnight() as u64
}

} // verus!
