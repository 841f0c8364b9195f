//! The clock of a run.

use vstd::prelude::*;

use crate::jiffies::Jiffies;

verus! {

/// The current instant of a run. It starts at zero and never moves back.
pub struct Clock {
    present: Jiffies,
}

impl Clock {
    /// The instant that the clock shows.
    pub closed spec fn time(&self) -> Jiffies {
        self.present
    }

    /// A clock that shows the instant `at`.
    pub closed spec fn at(at: Jiffies) -> Self {
        Clock { present: at }
    }

    /// A clock shows the instant that it was set to.
    pub proof fn lemma_at(at: Jiffies)
        ensures
            Clock::at(at).time() == at,
    {
    }

    /// A clock at instant zero.
    pub fn new() -> (clock: Self)
        ensures
            clock.time() == Jiffies(0),
    {
        Clock { present: Jiffies(0) }
    }
}

/// Puts the clock back to instant zero, as at the start of a run.
pub fn drop_clock(clock: &mut Clock)
    ensures
        final(clock).time() == Jiffies(0),
{
    clock.present = Jiffies(0);
}

/// Moves the clock to `future`, which must not lie before the present.
pub fn fast_forward_clock(clock: &mut Clock, future: Jiffies)
    requires
        old(clock).time().0 <= future.0,
    ensures
        final(clock).time() == future,
        *final(clock) == Clock::at(future),
{
    clock.present = future;
}

/// The current instant.
pub fn now(clock: &Clock) -> (present: Jiffies)
    ensures
        present == clock.time(),
{
    clock.present
}

/// The clock never moves back: a clock that took a move to `first` and
/// then a move to `second` shows an instant no earlier than the one it
/// showed before the two.
pub proof fn lemma_clock_is_monotonic(start: Clock, first: Jiffies, second: Jiffies)
    requires
        start.time().0 <= first.0,
        Clock::at(first).time().0 <= second.0,
    ensures
        start.time().0 <= Clock::at(first).time().0,
        Clock::at(first).time().0 <= Clock::at(second).time().0,
{
}

} // verus!
