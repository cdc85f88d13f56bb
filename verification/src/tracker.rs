//! The driver of the periodic runs: it keeps the time from which the next
//! run starts.

use crate::settings::Settings;
use vstd::prelude::*;

verus! {

/// Why the tracker cannot go on.
#[derive(Debug, Clone, Copy, PartialEq, Eq, Structural)]
pub enum TrackerError {
    /// The time of the next tick does not fit the clock.
    IntervalOverflow,
}

/// The state of the driver.
#[derive(Debug, Clone, Copy)]
pub struct Tracker {
    /// The next run takes the files after this time, in milliseconds since
    /// the epoch.
    pub after_utc: i64,
    /// Seconds between two runs.
    pub interval_duration: i64,
}

/// The time of the tick after the one at `after_utc`, in milliseconds
/// since the epoch.
pub open spec fn next_tick(after_utc: i64, interval_duration: i64) -> int {
    after_utc + interval_duration * 1000
}

impl Tracker {
    /// A driver that starts at `after_utc`, with the interval of the
    /// settings.
    pub fn new(settings: &Settings, after_utc: i64) -> (r: Self)
        ensures
            r.after_utc == after_utc,
            r.interval_duration == settings.tracker.interval,
    {
        Tracker { interval_duration: settings.interval(), after_utc }
    }

    /// Takes note of a finished run that answered with `max_ts` as the
    /// time to resume from. The next run starts there. The answer is the
    /// time of the next tick, or an error, with the state unchanged, if
    /// that time does not fit the clock.
    pub fn tick(&mut self, max_ts: i64) -> (r: Result<i64, TrackerError>)
        ensures
            final(self).interval_duration == old(self).interval_duration,
            match r {
                Ok(next_utc) => {
                    &&& next_utc == next_tick(old(self).after_utc, old(self).interval_duration)
                    &&& final(self).after_utc == max_ts
                },
                Err(e) => {
                    &&& e == TrackerError::IntervalOverflow
                    &&& !(i64::MIN <= next_tick(old(self).after_utc, old(self).interval_duration)
                        <= i64::MAX)
                    &&& final(self).after_utc == old(self).after_utc
                },
            },
    {
        let next_utc: i128 = (self.after_utc as i128) + (self.interval_duration as i128) * 1000;
        if next_utc < i64::MIN as i128 || next_utc > i64::MAX as i128 {
            return Err(TrackerError::IntervalOverflow);
        }
        self.after_utc = max_ts;
        Ok(next_utc as i64)
    }
}

} // verus!
