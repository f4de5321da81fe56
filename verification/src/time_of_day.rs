use vstd::prelude::*;

verus! {

/// A wall-clock time of day: hour and minute, no date component.
#[derive(Clone, Copy, Debug, PartialEq, Eq, Structural)]
pub struct TimeOfDay {
    pub hour: u8,
    pub minute: u8,
}

impl TimeOfDay {
    /// A time of day is meaningful only with the hour below 24 and the
    /// minute below 60.
    pub open spec fn wf(self) -> bool {
        self.hour < 24 && self.minute < 60
    }

    pub fn new(hour: u8, minute: u8) -> (r: TimeOfDay)
        requires
            hour < 24,
            minute < 60,
        ensures
            r == (TimeOfDay { hour, minute }),
            r.wf(),
    {
        TimeOfDay { hour, minute }
    }
}

} // verus!
