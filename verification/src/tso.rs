//! The source of identifiers that are unique within a run.

use vstd::prelude::*;

verus! {

/// A counter that hands out each number once.
pub struct Tso {
    next: usize,
}

impl Tso {
    /// How many identifiers have been handed out. It is also the identifier
    /// that is handed out next.
    pub closed spec fn issued(&self) -> nat {
        self.next as nat
    }

    /// The counter after it has handed out one more identifier.
    pub closed spec fn after_issue(self) -> Self {
        Tso { next: (self.next + 1) as usize }
    }

    /// A counter that has handed out nothing.
    pub fn new() -> (tso: Self)
        ensures
            tso.issued() == 0,
    {
        Tso { next: 0 }
    }

    /// Whether another identifier can be handed out.
    pub fn has_next(&self) -> (more: bool)
        ensures
            more == (self.issued() < usize::MAX),
    {
        self.next < usize::MAX
    }
}

/// An identifier that no earlier call on this counter has returned.
pub fn global_unique_id(tso: &mut Tso) -> (id: usize)
    requires
        old(tso).issued() < usize::MAX,
    ensures
        id == old(tso).issued(),
        *final(tso) == old(tso).after_issue(),
        final(tso).issued() == old(tso).issued() + 1,
{
    let id = tso.next;
    tso.next = id + 1;
    id
}

/// Puts the counter back to zero, as at the start of a run.
pub fn drop_tso(tso: &mut Tso)
    ensures
        final(tso).issued() == 0,
{
    tso.next = 0;
}

/// Identifiers grow strictly: of two calls, one right after the other,
/// the second returns a larger identifier than the first.
pub proof fn lemma_ids_strictly_increase(tso: Tso)
    requires
        tso.issued() + 1 < usize::MAX,
    ensures
        tso.issued() < tso.after_issue().issued(),
        tso.after_issue().issued() < tso.after_issue().after_issue().issued(),
{
}

} // verus!
