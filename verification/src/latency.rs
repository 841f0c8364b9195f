//! Messages in flight, ordered by the instant at which they reach the
//! receiver's network interface.

use std::rc::Rc;
use vstd::prelude::*;

use crate::jiffies::capped_add;
use crate::jiffies::capped_sum;
use crate::jiffies::Jiffies;
use crate::message::addressed_within;
use crate::message::lemma_rest_addressed;
use crate::message::lemma_with_letter_addressed;
use crate::message::with_letter;
use crate::message::Letter;
use crate::message::RoutedMessage;
use crate::message::Scheduled;
use crate::queue::TimedQueue;
use crate::random::Randomizer;
use crate::topology::Topology;

verus! {

/// The messages that are in flight. A message that is pushed gets a latency
/// drawn from the distribution of its link.
pub struct LatencyQueue<M> {
    randomizer: Randomizer,
    topology: Rc<Topology>,
    queue: TimedQueue<Letter<M>>,
}

impl<M> View for LatencyQueue<M> {
    type V = Seq<Scheduled<M>>;

    /// The messages in flight, the one that arrives first in front.
    closed spec fn view(&self) -> Seq<Scheduled<M>> {
        self.queue@
    }
}

impl<M> LatencyQueue<M> {
    /// The topology whose links the latencies are drawn for.
    pub closed spec fn topology(&self) -> Topology {
        *self.topology
    }

    /// Every message in flight goes to a rank of the topology.
    pub open spec fn wf(&self) -> bool {
        addressed_within(self@, self.topology().size())
    }

    /// An empty queue over `topology` that draws from `randomizer`.
    pub fn new(randomizer: Randomizer, topology: Rc<Topology>) -> (queue: Self)
        ensures
            queue@ == Seq::<Scheduled<M>>::empty(),
            queue.topology() == *topology,
            queue.wf(),
    {
        LatencyQueue { randomizer, topology, queue: TimedQueue::new() }
    }

    /// Puts `message` in flight with the given latency: it arrives
    /// `latency` after the instant that it carries.
    pub fn push_with_latency(&mut self, message: RoutedMessage<M>, latency: usize)
        requires
            old(self).wf(),
            1 <= message.step.dest <= old(self).topology().size(),
        ensures
            final(self).wf(),
            final(self).topology() == old(self).topology(),
            final(self)@ == with_letter(
                old(self)@,
                capped_sum(message.arrival_time.0, latency),
                message.step,
            ),
    {
        let arrival = capped_add(message.arrival_time.0, latency);
        self.queue.push(arrival, message.step);
        proof {
            lemma_with_letter_addressed(
                old(self)@,
                arrival,
                message.step,
                self.topology().size(),
            );
        }
    }

    /// Puts `message` in flight with a latency drawn from the distribution
    /// of its link. Where the link has no distribution, or one that needs a
    /// real number, nothing is drawn and the message comes back.
    pub fn push(&mut self, message: RoutedMessage<M>) -> (back: Option<RoutedMessage<M>>)
        requires
            old(self).wf(),
        ensures
            final(self).wf(),
            final(self).topology() == old(self).topology(),
            old(self).topology().drawable(message.step.source, message.step.dest) is None
                ==> back == Some(message) && final(self)@ == old(self)@,
            old(self).topology().drawable(message.step.source, message.step.dest) matches Some(d)
                ==> back is None && exists|latency: usize|
                d.admits(latency) && #[trigger] with_letter(
                    old(self)@,
                    capped_sum(message.arrival_time.0, latency),
                    message.step,
                ) == final(self)@,
    {
        if !self.topology.has_distribution(message.step.source, message.step.dest) {
            return Some(message);
        }
        let d = self.topology.get_distribution(message.step.source, message.step.dest);
        match self.randomizer.random_usize(d) {
            None => Some(message),
            Some(latency) => {
                self.push_with_latency(message, latency);
                None
            },
        }
    }

    /// Removes and returns the message that arrives first.
    pub fn pop(&mut self) -> (first: Option<RoutedMessage<M>>)
        requires
            old(self).wf(),
        ensures
            final(self).wf(),
            final(self).topology() == old(self).topology(),
            old(self)@.len() == 0 ==> first is None && final(self)@ == old(self)@,
            old(self)@.len() > 0 ==> first == Some(
                (RoutedMessage { arrival_time: Jiffies(old(self)@[0].0), step: old(self)@[0].1 }),
            ) && final(self)@ == old(self)@.subrange(1, old(self)@.len() as int),
            crate::queue::sorted_by_time(old(self)@),
    {
        match self.queue.pop() {
            None => None,
            Some((time, step)) => {
                proof {
                    lemma_rest_addressed(old(self)@, self.topology().size());
                }
                Some(RoutedMessage { arrival_time: Jiffies(time), step })
            },
        }
    }

    /// The instant at which the first message arrives, if any is in flight.
    pub fn peek(&self) -> (time: Option<Jiffies>)
        ensures
            time == if self@.len() == 0 {
                None
            } else {
                Some(Jiffies(self@[0].0))
            },
            crate::queue::sorted_by_time(self@),
    {
        match self.queue.peek_time() {
            None => None,
            Some(t) => Some(Jiffies(t)),
        }
    }

    /// The generator that the latencies are drawn from, as it stands.
    pub closed spec fn randomness(&self) -> Randomizer {
        self.randomizer
    }

    /// The generator that the latencies are drawn from. What is drawn from
    /// it moves the stream of the latencies on and changes nothing else.
    pub fn randomizer(&mut self) -> (randomizer: &mut Randomizer)
        ensures
            *randomizer == old(self).randomness(),
            final(self).randomness() == *final(randomizer),
            final(self)@ == old(self)@,
            final(self).topology() == old(self).topology(),
    {
        &mut self.randomizer
    }
}

} // verus!
