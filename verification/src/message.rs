//! Messages and the form in which the network carries them.

use std::rc::Rc;
use vstd::prelude::*;

use crate::jiffies::Jiffies;
use crate::topology::Rank;

verus! {

/// What a process sends to another process.
pub trait Message {
    /// Whether the messages of this type take nothing of the receiver's
    /// bandwidth. Of a type that does not say so, nothing is claimed.
    open spec fn is_free() -> bool {
        false
    }

    /// The number of bytes that the message takes of the receiver's
    /// bandwidth. A message that should cost nothing keeps the default,
    /// which is zero.
    fn virtual_size(&self) -> (size: usize)
        ensures
            Self::is_free() ==> size == 0,
    {
        0
    }
}

/// Where a message is meant to go.
#[derive(Clone, Copy, Debug, PartialEq, Eq, Hash, Structural)]
pub enum Destination {
    /// To every process of the run.
    Broadcast,
    /// To the process with the given rank.
    To(Rank),
    /// Back to the sender.
    SendSelf,
}

/// A message on its way from one process to another.
pub struct Letter<M> {
    /// The rank of the sender.
    pub source: Rank,
    /// The rank of the receiver.
    pub dest: Rank,
    /// The virtual size of the message, taken once when it was sent.
    pub size: usize,
    /// The message itself, shared among the receivers of a broadcast.
    pub message: Rc<M>,
}

/// A letter together with the instant at which it is due.
pub struct RoutedMessage<M> {
    pub arrival_time: Jiffies,
    pub step: Letter<M>,
}

/// A letter paired with the instant at which it is due, as queues hold it.
pub type Scheduled<M> = (usize, Letter<M>);

/// `queue` after `letter` has joined it for `time`: behind everything due
/// at `time` or earlier.
pub open spec fn with_letter<M>(queue: Seq<Scheduled<M>>, time: usize, letter: Letter<M>) -> Seq<
    Scheduled<M>,
> {
    queue.insert(crate::queue::slot_for(queue, time), (time, letter))
}

/// Whether every letter of `queue` goes to a rank between one and `ranks`.
pub open spec fn addressed_within<M>(queue: Seq<Scheduled<M>>, ranks: nat) -> bool {
    forall|i: int| 0 <= i < queue.len() ==> 1 <= (#[trigger] queue[i]).1.dest <= ranks
}

/// A queue whose letters are addressed within `ranks` stays so when such a
/// letter joins it.
pub proof fn lemma_with_letter_addressed<M>(
    queue: Seq<Scheduled<M>>,
    time: usize,
    letter: Letter<M>,
    ranks: nat,
)
    requires
        addressed_within(queue, ranks),
        crate::queue::sorted_by_time(queue),
        1 <= letter.dest <= ranks,
    ensures
        addressed_within(with_letter(queue, time, letter), ranks),
{
    crate::queue::lemma_slot_for(queue, time);
    let p = crate::queue::slot_for(queue, time);
    let after = with_letter(queue, time, letter);
    assert forall|i: int| 0 <= i < after.len() implies 1 <= (#[trigger] after[i]).1.dest
        <= ranks by {
        if i < p {
            assert(after[i] == queue[i]);
        } else if i > p {
            assert(after[i] == queue[i - 1]);
        }
    }
}

/// A queue whose letters are addressed within `ranks` stays so when its
/// first letter leaves.
pub proof fn lemma_rest_addressed<M>(queue: Seq<Scheduled<M>>, ranks: nat)
    requires
        addressed_within(queue, ranks),
        queue.len() > 0,
    ensures
        addressed_within(queue.subrange(1, queue.len() as int), ranks),
{
    let rest = queue.subrange(1, queue.len() as int);
    assert forall|i: int| 0 <= i < rest.len() implies 1 <= (#[trigger] rest[i]).1.dest <= ranks by {
        assert(rest[i] == queue[i + 1]);
    }
}

} // verus!
