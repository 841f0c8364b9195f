//! Timers that processes set for themselves.

use vstd::prelude::*;

use crate::jiffies::capped_add;
use crate::jiffies::capped_sum;
use crate::jiffies::Jiffies;
use crate::queue::all_from;
use crate::queue::slot_for;
use crate::queue::sorted_by_time;
use crate::queue::TimedQueue;
use crate::topology::Rank;
use crate::tso::Tso;

verus! {

/// The identifier of a timer. A process gets it when it sets the timer and
/// gets it again when the timer fires. A timer cannot be taken back: a
/// process that no longer cares ignores the identifier.
pub type TimerId = usize;

/// A timer that waits to fire: the instant, the process and the identifier.
pub type PendingTimer = (usize, (Rank, TimerId));

/// A fresh timer identifier.
pub fn next_timer_id(tso: &mut Tso) -> (id: TimerId)
    requires
        old(tso).issued() < usize::MAX,
    ensures
        id == old(tso).issued(),
        final(tso).issued() == old(tso).issued() + 1,
{
    crate::tso::global_unique_id(tso)
}

/// `timers` after the timers of `events` have been set at instant `now`,
/// one after the other: each fires its delay after `now` and waits behind
/// every timer that fires at the same instant or earlier.
pub open spec fn with_timers(
    timers: Seq<PendingTimer>,
    events: Seq<(Rank, TimerId, Jiffies)>,
    now: Jiffies,
) -> Seq<PendingTimer>
    decreases events.len(),
{
    if events.len() == 0 {
        timers
    } else {
        let (source, id, after) = events.last();
        let earlier = with_timers(timers, events.drop_last(), now);
        let fires = capped_sum(now.0, after.0);
        earlier.insert(slot_for(earlier, fires), (fires, (source, id)))
    }
}

/// Whether every timer of `timers` belongs to a rank between one and
/// `ranks`.
pub open spec fn owned_within(timers: Seq<PendingTimer>, ranks: nat) -> bool {
    forall|i: int| 0 <= i < timers.len() ==> 1 <= (#[trigger] timers[i]).1.0 <= ranks
}

/// The timers that wait to fire.
pub struct TimerManager {
    working_timers: TimedQueue<(Rank, TimerId)>,
}

impl View for TimerManager {
    type V = Seq<PendingTimer>;

    /// The waiting timers, the one that fires first in front.
    closed spec fn view(&self) -> Seq<PendingTimer> {
        self.working_timers@
    }
}

impl TimerManager {
    /// No timer waits.
    pub fn new() -> (timers: Self)
        ensures
            timers@ == Seq::<PendingTimer>::empty(),
    {
        TimerManager { working_timers: TimedQueue::new() }
    }

    /// Timers do nothing when a run starts.
    pub fn start(&mut self)
        ensures
            final(self)@ == old(self)@,
    {
    }

    /// The instant at which the next timer fires, if one waits.
    pub fn peek_closest(&self) -> (time: Option<Jiffies>)
        ensures
            time == if self@.len() == 0 {
                None
            } else {
                Some(Jiffies(self@[0].0))
            },
            sorted_by_time(self@),
    {
        match self.working_timers.peek_time() {
            None => None,
            Some(t) => Some(Jiffies(t)),
        }
    }

    /// Takes out the timer that fires first and says whose it is.
    pub fn step(&mut self) -> (fired: Option<(Rank, TimerId)>)
        ensures
            old(self)@.len() == 0 ==> fired is None && final(self)@ == old(self)@,
            old(self)@.len() > 0 ==> fired == Some(old(self)@[0].1)
                && final(self)@ == old(self)@.subrange(1, old(self)@.len() as int),
            sorted_by_time(old(self)@),
    {
        match self.working_timers.pop() {
            None => None,
            Some((_, owner)) => Some(owner),
        }
    }

    /// Sets the timers of `events` at instant `now`, in their order, and
    /// leaves `events` empty.
    pub fn submit(&mut self, events: &mut Vec<(Rank, TimerId, Jiffies)>, now: Jiffies)
        ensures
            final(events)@.len() == 0,
            final(self)@ == with_timers(old(self)@, old(events)@, now),
    {
        let n = events.len();
        let mut i: usize = 0;
        assert(old(events)@.take(0) == Seq::<(Rank, TimerId, Jiffies)>::empty());
        while i < n
            invariant
                i <= n,
                n == events@.len(),
                events@ == old(events)@,
                self@ == with_timers(old(self)@, old(events)@.take(i as int), now),
            decreases n - i,
        {
            let (source, id, after) = events[i];
            proof {
                let upto = old(events)@.take(i as int + 1);
                assert(upto.last() == old(events)@[i as int]);
                assert(upto.drop_last() == old(events)@.take(i as int));
            }
            self.working_timers.push(capped_add(now.0, after.0), (source, id));
            i = i + 1;
        }
        assert(old(events)@.take(n as int) == old(events)@);
        events.clear();
    }
}

/// Timers set at `now` for ranks up to `ranks` join a queue of such timers
/// of which none fires before `now`, and leave it such a queue.
pub proof fn lemma_with_timers_keeps(
    timers: Seq<PendingTimer>,
    events: Seq<(Rank, TimerId, Jiffies)>,
    now: Jiffies,
    ranks: nat,
)
    requires
        owned_within(timers, ranks),
        all_from(timers, now.0),
        forall|i: int| 0 <= i < events.len() ==> 1 <= (#[trigger] events[i]).0 <= ranks,
    ensures
        owned_within(with_timers(timers, events, now), ranks),
        all_from(with_timers(timers, events, now), now.0),
    decreases events.len(),
{
    if events.len() > 0 {
        let (source, id, after) = events.last();
        assert forall|i: int| 0 <= i < events.drop_last().len() implies 1 <= (
        #[trigger] events.drop_last()[i]).0 <= ranks by {
            assert(events.drop_last()[i] == events[i]);
        }
        lemma_with_timers_keeps(timers, events.drop_last(), now, ranks);
        let earlier = with_timers(timers, events.drop_last(), now);
        let fires = capped_sum(now.0, after.0);
        let p = slot_for(earlier, fires);
        crate::queue::lemma_slot_in_range(earlier, fires);
        let later = earlier.insert(p, (fires, (source, id)));
        assert forall|i: int| 0 <= i < later.len() implies 1 <= (#[trigger] later[i]).1.0 <= ranks
            && now.0 <= later[i].0 by {
            if i < p {
                assert(later[i] == earlier[i]);
            } else if i > p {
                assert(later[i] == earlier[i - 1]);
            }
        }
    }
}

} // verus!
