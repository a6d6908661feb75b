//! The day-cycle clock: a repeating real-time countdown that emits the "new
//! day" signal consumed by the stage-advancement algorithm.

use vstd::prelude::*;

verus! {

/// The default real-time length of one simulated day, in milliseconds.
pub const DAY_LENGTH_MILLIS: u64 = 45000;

/// A repeating countdown over integer milliseconds, advanced once per
/// simulation frame by the elapsed frame time. On expiry it rewinds itself
/// (keeping the overshoot remainder) and reports that a day passed; it then
/// keeps counting. A frame reports at most one day, however large its
/// elapsed time.
#[derive(Debug, Clone, Copy, PartialEq, Eq, Structural)]
pub struct DayClock {
    pub period: u64,
    pub remaining: u64,
}

impl DayClock {
    /// The countdown is live: a positive period, and between one step and a
    /// full period left.
    pub open spec fn wf(self) -> bool {
        0 < self.remaining <= self.period
    }

    /// A fresh clock with a full countdown of `period` milliseconds.
    pub fn new(period: u64) -> (r: DayClock)
        requires
            period > 0,
        ensures
            r == (DayClock { period, remaining: period }),
            r.wf(),
    {
        DayClock { period, remaining: period }
    }

    /// Counts `delta` elapsed milliseconds. Reports true exactly when the
    /// countdown expired within this frame; the clock then rewinds by whole
    /// periods, keeping the overshoot, so no real time is lost.
    pub fn advance(&mut self, delta: u64) -> (fired: bool)
        requires
            old(self).wf(),
        ensures
            final(self).wf(),
            final(self).period == old(self).period,
            fired == (delta >= old(self).remaining),
            !fired ==> final(self).remaining == old(self).remaining - delta,
            fired ==> final(self).remaining == old(self).period - ((delta - old(self).remaining)
                % (old(self).period as int)),
    {
        if delta < self.remaining {
            self.remaining = self.remaining - delta;
            false
        } else {
            let over = (delta - self.remaining) % self.period;
            self.remaining = self.period - over;
            true
        }
    }

    /// Rewinds the countdown to a full period, as the manual day trigger
    /// does before firing.
    pub fn reset(&mut self)
        requires
            old(self).wf(),
        ensures
            *final(self) == (DayClock { period: old(self).period, remaining: old(self).period }),
            final(self).wf(),
    {
        self.remaining = self.period;
    }
}

} // verus!
