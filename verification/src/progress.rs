//! When to report how far a run has come.

use vstd::prelude::*;

use crate::jiffies::Jiffies;

verus! {

/// Into how many parts the time budget is cut for reporting.
pub const K_PROGRESS_TIMES: usize = 10;

/// Decides when progress is worth a report: each time the clock has
/// entered a later part of the time budget.
pub struct Bar {
    total: Jiffies,
    prev_log: usize,
    k: usize,
}

impl Bar {
    /// The length of a part.
    pub closed spec fn part(&self) -> usize {
        self.k
    }

    /// The part that was reported last.
    pub closed spec fn reported(&self) -> usize {
        self.prev_log
    }

    /// The time budget.
    pub closed spec fn total(&self) -> Jiffies {
        self.total
    }

    /// Parts have a length.
    pub closed spec fn wf(&self) -> bool {
        self.k > 0
    }

    /// A bar over `total` jiffies that reports once every `k` jiffies.
    pub fn new(total: Jiffies, k: usize) -> (bar: Self)
        requires
            k > 0,
        ensures
            bar.wf(),
            bar.total() == total,
            bar.part() == k,
            bar.reported() == 0,
    {
        Bar { total, prev_log: 0, k }
    }

    /// Says whether the clock at `time` has entered a part later than the
    /// one reported last, and takes note of that part if so.
    pub fn make_progress(&mut self, time: Jiffies) -> (report: bool)
        requires
            old(self).wf(),
        ensures
            final(self).wf(),
            final(self).total() == old(self).total(),
            final(self).part() == old(self).part(),
            report == (time.0 / old(self).part() > old(self).reported()),
            final(self).reported() == if report {
                time.0 / old(self).part()
            } else {
                old(self).reported()
            },
    {
        let d = time.0 / self.k;
        if d > self.prev_log {
            self.prev_log = d;
            true
        } else {
            false
        }
    }

    /// The time budget.
    pub fn length(&self) -> (total: Jiffies)
        ensures
            total == self.total(),
    {
        self.total
    }
}

} // verus!
