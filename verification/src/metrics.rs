//! Counters kept over a run.

use vstd::prelude::*;

verus! {

/// What a run has done so far.
#[derive(Clone, Copy, Debug, PartialEq, Eq, Structural)]
pub struct Metrics {
    /// The number of events handed to processes.
    pub events_total: usize,
}

impl Metrics {
    /// Counters at zero.
    pub fn new() -> (metrics: Self)
        ensures
            metrics.events_total == 0,
    {
        Metrics { events_total: 0 }
    }

    /// Counts one more event. The counter stays at the largest value it
    /// can hold once it got there.
    pub fn track_event(&mut self)
        ensures
            final(self).events_total == crate::jiffies::capped_sum(old(self).events_total, 1),
    {
        self.events_total = crate::jiffies::capped_add(self.events_total, 1);
    }
}

impl Default for Metrics {
    fn default() -> (metrics: Self)
        ensures
            metrics.events_total == 0,
    {
        Metrics { events_total: 0 }
    }
}

} // verus!
