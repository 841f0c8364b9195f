//! A time-ordered queue that serves equal instants in order of arrival.

use vstd::prelude::*;

verus! {

/// Whether the instants of `s` never decrease from front to back.
pub open spec fn sorted_by_time<T>(s: Seq<(usize, T)>) -> bool {
    forall|i: int, j: int| 0 <= i <= j < s.len() ==> s[i].0 <= s[j].0
}

/// The position at which an entry for `time` joins `s`: behind every entry
/// that is due at `time` or earlier, ahead of every later one.
pub open spec fn slot_for<T>(s: Seq<(usize, T)>, time: usize) -> int
    decreases s.len(),
{
    if s.len() == 0 || s[0].0 > time {
        0
    } else {
        1 + slot_for(s.subrange(1, s.len() as int), time)
    }
}

/// In a sorted sequence `slot_for` is the one position that separates the
/// entries due at `time` or earlier from the later ones.
pub proof fn lemma_slot_for<T>(s: Seq<(usize, T)>, time: usize)
    requires
        sorted_by_time(s),
    ensures
        0 <= slot_for(s, time) <= s.len(),
        forall|i: int| 0 <= i < slot_for(s, time) ==> s[i].0 <= time,
        forall|i: int| slot_for(s, time) <= i < s.len() ==> s[i].0 > time,
    decreases s.len(),
{
    if s.len() == 0 || s[0].0 > time {
    } else {
        let rest = s.subrange(1, s.len() as int);
        assert forall|i: int, j: int| 0 <= i <= j < rest.len() implies rest[i].0 <= rest[j].0 by {
            assert(rest[i] == s[i + 1]);
            assert(rest[j] == s[j + 1]);
        }
        lemma_slot_for(rest, time);
        assert forall|i: int| 0 <= i < slot_for(s, time) implies s[i].0 <= time by {
            if i > 0 {
                assert(rest[i - 1] == s[i]);
            }
        }
        assert forall|i: int| slot_for(s, time) <= i < s.len() implies s[i].0 > time by {
            assert(rest[i - 1] == s[i]);
        }
    }
}

/// A position that separates the entries due at `time` or earlier from the
/// later ones is the position that `slot_for` names.
pub proof fn lemma_slot_is_unique<T>(s: Seq<(usize, T)>, time: usize, p: int)
    requires
        0 <= p <= s.len(),
        forall|i: int| 0 <= i < p ==> s[i].0 <= time,
        forall|i: int| p <= i < s.len() ==> s[i].0 > time,
    ensures
        slot_for(s, time) == p,
    decreases s.len(),
{
    if s.len() == 0 {
    } else if s[0].0 > time {
        if p > 0 {
            assert(s[0].0 <= time);
        }
    } else {
        if p == 0 {
            assert(s[0].0 > time);
        }
        let rest = s.subrange(1, s.len() as int);
        assert forall|i: int| 0 <= i < p - 1 implies rest[i].0 <= time by {
            assert(rest[i] == s[i + 1]);
        }
        assert forall|i: int| p - 1 <= i < rest.len() implies rest[i].0 > time by {
            assert(rest[i] == s[i + 1]);
        }
        lemma_slot_is_unique(rest, time, p - 1);
    }
}

/// Inserting an entry at its slot keeps a sorted sequence sorted.
pub proof fn lemma_insert_keeps_sorted<T>(s: Seq<(usize, T)>, time: usize, item: T)
    requires
        sorted_by_time(s),
    ensures
        sorted_by_time(s.insert(slot_for(s, time), (time, item))),
{
    lemma_slot_for(s, time);
    let p = slot_for(s, time);
    let after = s.insert(p, (time, item));
    assert forall|i: int, j: int| 0 <= i <= j < after.len() implies after[i].0 <= after[j].0 by {
        if i < p {
            assert(after[i] == s[i]);
        } else if i > p {
            assert(after[i] == s[i - 1]);
        }
        if j < p {
            assert(after[j] == s[j]);
        } else if j > p {
            assert(after[j] == s[j - 1]);
        }
    }
}

/// Whether no entry of `s` is due before `now`.
pub open spec fn all_from<T>(s: Seq<(usize, T)>, now: usize) -> bool {
    forall|i: int| 0 <= i < s.len() ==> now <= (#[trigger] s[i]).0
}

/// The slot of an entry lies within the sequence or right behind it.
pub proof fn lemma_slot_in_range<T>(s: Seq<(usize, T)>, time: usize)
    ensures
        0 <= slot_for(s, time) <= s.len(),
    decreases s.len(),
{
    if s.len() == 0 || s[0].0 > time {
    } else {
        lemma_slot_in_range(s.subrange(1, s.len() as int), time);
    }
}

/// An entry that is not due before `now` joins a sequence of such entries.
pub proof fn lemma_insert_all_from<T>(s: Seq<(usize, T)>, time: usize, item: T, now: usize)
    requires
        all_from(s, now),
        now <= time,
    ensures
        all_from(s.insert(slot_for(s, time), (time, item)), now),
{
    lemma_slot_in_range(s, time);
    let p = slot_for(s, time);
    let after = s.insert(p, (time, item));
    assert forall|i: int| 0 <= i < after.len() implies now <= (#[trigger] after[i]).0 by {
        if i < p {
            assert(after[i] == s[i]);
        } else if i > p {
            assert(after[i] == s[i - 1]);
        }
    }
}

/// What stays when the first entry leaves is not due any earlier.
pub proof fn lemma_rest_all_from<T>(s: Seq<(usize, T)>, now: usize)
    requires
        all_from(s, now),
        s.len() > 0,
    ensures
        all_from(s.subrange(1, s.len() as int), now),
{
    let rest = s.subrange(1, s.len() as int);
    assert forall|i: int| 0 <= i < rest.len() implies now <= (#[trigger] rest[i]).0 by {
        assert(rest[i] == s[i + 1]);
    }
}

/// In a sorted sequence nothing is due before its first entry, nor before
/// any instant up to that.
pub proof fn lemma_sorted_all_from<T>(s: Seq<(usize, T)>, now: usize)
    requires
        sorted_by_time(s),
        s.len() > 0 ==> now <= s[0].0,
    ensures
        all_from(s, now),
{
    assert forall|i: int| 0 <= i < s.len() implies now <= (#[trigger] s[i]).0 by {
        assert(s[0].0 <= s[i].0);
    }
}

/// A queue of items, each due at an instant. The item due earliest leaves
/// first; items due at the same instant leave in the order they were pushed.
pub struct TimedQueue<T> {
    entries: Vec<(usize, T)>,
}

impl<T> View for TimedQueue<T> {
    type V = Seq<(usize, T)>;

    /// The entries in the order in which they will leave the queue.
    closed spec fn view(&self) -> Seq<(usize, T)> {
        self.entries@
    }
}

impl<T> TimedQueue<T> {
    #[verifier::type_invariant]
    spec fn ordered(self) -> bool {
        sorted_by_time(self.entries@)
    }

    /// An empty queue.
    pub fn new() -> (queue: Self)
        ensures
            queue@ == Seq::<(usize, T)>::empty(),
    {
        TimedQueue { entries: Vec::new() }
    }

    /// The number of entries waiting.
    pub fn len(&self) -> (n: usize)
        ensures
            n == self@.len(),
    {
        self.entries.len()
    }

    /// Whether nothing is waiting.
    pub fn is_empty(&self) -> (empty: bool)
        ensures
            empty == (self@.len() == 0),
    {
        self.entries.len() == 0
    }

    /// The instant at which the next entry is due, if there is one.
    pub fn peek_time(&self) -> (time: Option<usize>)
        ensures
            time == if self@.len() == 0 { None } else { Some(self@[0].0) },
            sorted_by_time(self@),
    {
        proof {
            use_type_invariant(self);
        }
        if self.entries.len() == 0 {
            None
        } else {
            Some(self.entries[0].0)
        }
    }

    /// The entry that leaves next, if there is one.
    pub fn peek(&self) -> (next: Option<&(usize, T)>)
        ensures
            self@.len() == 0 ==> next is None,
            self@.len() > 0 ==> next == Some(&self@[0]),
    {
        if self.entries.len() == 0 {
            None
        } else {
            Some(&self.entries[0])
        }
    }

    /// Queues `item` for `time`, behind everything due at `time` or earlier.
    pub fn push(&mut self, time: usize, item: T)
        ensures
            final(self)@ == old(self)@.insert(slot_for(old(self)@, time), (time, item)),
            sorted_by_time(old(self)@),
            sorted_by_time(final(self)@),
    {
        proof {
            use_type_invariant(&*self);
        }
        let mut entries: Vec<(usize, T)> = Vec::new();
        core::mem::swap(&mut self.entries, &mut entries);
        let ghost before = entries@;
        let mut at: usize = entries.len();
        while at > 0 && entries[at - 1].0 > time
            invariant
                at <= entries@.len(),
                entries@ == before,
                forall|i: int| at <= i < before.len() ==> before[i].0 > time,
            decreases at,
        {
            at = at - 1;
        }
        proof {
            assert forall|i: int| 0 <= i < at implies before[i].0 <= time by {
                assert(before[at - 1].0 <= time);
            }
            lemma_slot_is_unique(before, time, at as int);
            lemma_insert_keeps_sorted(before, time, item);
        }
        entries.insert(at, (time, item));
        self.entries = entries;
    }

    /// Removes and returns the entry that is due first.
    pub fn pop(&mut self) -> (next: Option<(usize, T)>)
        ensures
            old(self)@.len() == 0 ==> next is None && final(self)@ == old(self)@,
            old(self)@.len() > 0 ==> next == Some(old(self)@[0])
                && final(self)@ == old(self)@.subrange(1, old(self)@.len() as int),
            sorted_by_time(old(self)@),
            sorted_by_time(final(self)@),
    {
        proof {
            use_type_invariant(&*self);
        }
        if self.entries.len() == 0 {
            return None;
        }
        let mut entries: Vec<(usize, T)> = Vec::new();
        core::mem::swap(&mut self.entries, &mut entries);
        let first = entries.remove(0);
        self.entries = entries;
        Some(first)
    }
}

} // verus!
