//! The network interfaces of the receivers: messages that have arrived
//! wait there until the bytes ahead of them have been taken in.

use vstd::prelude::*;

use crate::jiffies::capped_sum;
use crate::jiffies::Jiffies;
use crate::latency::LatencyQueue;
use crate::message::addressed_within;
use crate::message::lemma_rest_addressed;
use crate::message::lemma_with_letter_addressed;
use crate::message::with_letter;
use crate::message::Letter;
use crate::message::RoutedMessage;
use crate::message::Scheduled;
use crate::queue::lemma_slot_for;
use crate::queue::slot_for;
use crate::queue::sorted_by_time;
use crate::queue::TimedQueue;
use crate::topology::Rank;
use crate::topology::Topology;

verus! {

/// How many bytes a network interface takes in per jiffy.
#[derive(Clone, Copy, Debug, PartialEq, Eq, Structural)]
pub enum BandwidthType {
    /// Messages are taken in the instant they arrive.
    Unbounded,
    /// The number of bytes per jiffy.
    Bounded(usize),
}

/// What one step of the bandwidth queue produced.
pub enum BandwidthQueueOptions<M> {
    /// A message reached its receiver's interface and now waits there.
    /// Nothing is delivered.
    MessageArrivedByLatency,
    /// Nothing was waiting anywhere.
    Idle,
    /// A message left the interface and is to be delivered.
    Delivered(RoutedMessage<M>),
}

/// The bytes that `entry` adds to the interface of `dest`.
pub open spec fn share<M>(entry: Scheduled<M>, dest: Rank) -> nat {
    if entry.1.dest == dest {
        entry.1.size as nat
    } else {
        0
    }
}

/// The bytes of the messages in `released` that wait at the interface of
/// `dest`.
pub open spec fn parked_bytes<M>(released: Seq<Scheduled<M>>, dest: Rank) -> nat
    decreases released.len(),
{
    if released.len() == 0 {
        0
    } else {
        parked_bytes(released.drop_last(), dest) + share(released.last(), dest)
    }
}

/// The jiffies that an interface needs for `buffered` bytes.
pub open spec fn drain_time(bandwidth: BandwidthType, buffered: nat) -> nat {
    match bandwidth {
        BandwidthType::Unbounded => 0,
        BandwidthType::Bounded(rate) => if rate == 0 {
            0
        } else {
            buffered / (rate as nat)
        },
    }
}

/// The instant at which a message leaves the interface: its arrival plus
/// the time for everything buffered there, the message itself included. An
/// instant past the largest representable one is held at that one.
pub open spec fn leave_instant(bandwidth: BandwidthType, arrival: usize, buffered: nat) -> usize {
    let due = arrival + drain_time(bandwidth, buffered);
    if due > usize::MAX {
        usize::MAX
    } else {
        due as usize
    }
}

/// A message that joins the waiting ones adds its share to the bytes parked.
pub proof fn lemma_parked_insert<M>(
    released: Seq<Scheduled<M>>,
    at: int,
    entry: Scheduled<M>,
    dest: Rank,
)
    requires
        0 <= at <= released.len(),
    ensures
        parked_bytes(released.insert(at, entry), dest) == parked_bytes(released, dest) + share(
            entry,
            dest,
        ),
    decreases released.len(),
{
    let after = released.insert(at, entry);
    if at == released.len() {
        assert(after.drop_last() == released);
    } else {
        assert(after.last() == released.last());
        assert(after.drop_last() == released.drop_last().insert(at, entry));
        lemma_parked_insert(released.drop_last(), at, entry, dest);
    }
}

/// The first of the waiting messages takes its share with it when it goes.
pub proof fn lemma_parked_rest<M>(released: Seq<Scheduled<M>>, dest: Rank)
    requires
        released.len() > 0,
    ensures
        parked_bytes(released, dest) == share(released[0], dest) + parked_bytes(
            released.subrange(1, released.len() as int),
            dest,
        ),
    decreases released.len(),
{
    let rest = released.subrange(1, released.len() as int);
    if released.len() == 1 {
        assert(parked_bytes(released.drop_last(), dest) == 0);
        assert(parked_bytes(rest, dest) == 0);
        assert(released.last() == released[0]);
    } else {
        lemma_parked_rest(released.drop_last(), dest);
        assert(rest.last() == released.last());
        assert(rest.drop_last() == released.drop_last().subrange(
            1,
            released.drop_last().len() as int,
        ));
        assert(released.drop_last()[0] == released[0]);
    }
}

/// No message is larger than the largest `usize`, so the bytes parked are
/// bounded by the number of waiting messages.
pub proof fn lemma_parked_bound<M>(released: Seq<Scheduled<M>>, dest: Rank)
    ensures
        parked_bytes(released, dest) <= released.len() * usize::MAX,
    decreases released.len(),
{
    if released.len() > 0 {
        lemma_parked_bound(released.drop_last(), dest);
        assert(released.drop_last().len() * usize::MAX + usize::MAX == released.len()
            * usize::MAX) by (nonlinear_arith)
            requires
                released.drop_last().len() + 1 == released.len(),
        ;
    }
}

/// The state of the network between the senders and the receivers.
pub struct NicState<M> {
    /// The bandwidth of every interface.
    pub bandwidth: BandwidthType,
    /// The messages in flight, the one that arrives first in front.
    pub in_flight: Seq<Scheduled<M>>,
    /// The messages that wait at an interface, the one that leaves first in
    /// front.
    pub released: Seq<Scheduled<M>>,
}

impl<M> NicState<M> {
    /// The bytes buffered at the interface of `dest`.
    pub open spec fn buffered(self, dest: Rank) -> nat {
        parked_bytes(self.released, dest)
    }

    /// Whether the next step moves a message from flight to its interface:
    /// it does unless a waiting message is due strictly earlier.
    pub open spec fn releases_next(self) -> bool {
        self.in_flight.len() > 0 && (self.released.len() == 0 || self.in_flight[0].0
            <= self.released[0].0)
    }

    /// The instant at which the message in front of the flight would leave
    /// its interface if it arrived now.
    pub open spec fn release_instant(self) -> usize
        recommends
            self.in_flight.len() > 0,
    {
        let (arrival, letter) = self.in_flight[0];
        leave_instant(
            self.bandwidth,
            arrival,
            (self.buffered(letter.dest) + letter.size) as nat,
        )
    }

    /// The state after the message in front of the flight has reached its
    /// interface.
    pub open spec fn release(self) -> Self
        recommends
            self.in_flight.len() > 0,
    {
        NicState {
            bandwidth: self.bandwidth,
            in_flight: self.in_flight.subrange(1, self.in_flight.len() as int),
            released: with_letter(self.released, self.release_instant(), self.in_flight[0].1),
        }
    }

    /// The state after the waiting message in front has been delivered.
    pub open spec fn deliver(self) -> Self
        recommends
            self.released.len() > 0,
    {
        NicState {
            bandwidth: self.bandwidth,
            in_flight: self.in_flight,
            released: self.released.subrange(1, self.released.len() as int),
        }
    }

    /// The instant of the next step, if there is anything left to do.
    pub open spec fn next_instant(self) -> Option<usize> {
        if self.in_flight.len() == 0 && self.released.len() == 0 {
            None
        } else if self.releases_next() {
            Some(self.in_flight[0].0)
        } else {
            Some(self.released[0].0)
        }
    }

    /// The state after a message has been put in flight with a latency.
    pub open spec fn submit(self, message: RoutedMessage<M>, latency: usize) -> Self {
        NicState {
            bandwidth: self.bandwidth,
            in_flight: with_letter(
                self.in_flight,
                capped_sum(message.arrival_time.0, latency),
                message.step,
            ),
            released: self.released,
        }
    }
}

/// The network as the simulation sees it: messages in flight and messages
/// waiting at the receivers' interfaces.
pub struct BandwidthQueue<M> {
    bandwidth: BandwidthType,
    global_queue: LatencyQueue<M>,
    current_buffers_sizes: Vec<u128>,
    merged_fifo_buffers: TimedQueue<Letter<M>>,
}

impl<M> View for BandwidthQueue<M> {
    type V = NicState<M>;

    closed spec fn view(&self) -> NicState<M> {
        NicState {
            bandwidth: self.bandwidth,
            in_flight: self.global_queue@,
            released: self.merged_fifo_buffers@,
        }
    }
}

impl<M> BandwidthQueue<M> {
    /// The topology whose links the latencies are drawn for.
    pub closed spec fn topology(&self) -> Topology {
        self.global_queue.topology()
    }

    /// The counter of each interface holds the bytes parked there, and
    /// every message goes to a rank of the topology.
    pub closed spec fn wf(&self) -> bool {
        &&& self.global_queue.wf()
        &&& self.bandwidth != BandwidthType::Bounded(0)
        &&& self.current_buffers_sizes@.len() == self.topology().size() + 1
        &&& addressed_within(self.merged_fifo_buffers@, self.topology().size())
        &&& forall|dest: Rank|
            dest < self.current_buffers_sizes@.len() ==> self.current_buffers_sizes@[dest as int]
                == #[trigger] parked_bytes(self.merged_fifo_buffers@, dest)
    }

    /// What a well-formed queue guarantees to its users.
    pub proof fn lemma_wf(&self)
        requires
            self.wf(),
        ensures
            self@.bandwidth != BandwidthType::Bounded(0),
            addressed_within(self@.in_flight, self.topology().size()),
            addressed_within(self@.released, self.topology().size()),
    {
    }

    /// A network with nothing in it. `proc_num` is the number of processes
    /// of the topology that `global_queue` draws for.
    pub fn new(
        bandwidth_type: BandwidthType,
        proc_num: usize,
        global_queue: LatencyQueue<M>,
    ) -> (queue: Self)
        requires
            bandwidth_type != BandwidthType::Bounded(0),
            proc_num == global_queue.topology().size(),
            proc_num < usize::MAX,
            global_queue.wf(),
        ensures
            queue.wf(),
            queue.topology() == global_queue.topology(),
            queue@ == (NicState {
                bandwidth: bandwidth_type,
                in_flight: global_queue@,
                released: Seq::<Scheduled<M>>::empty(),
            }),
    {
        let mut sizes: Vec<u128> = Vec::new();
        let mut i: usize = 0;
        while i < proc_num + 1
            invariant
                i <= proc_num + 1,
                proc_num < usize::MAX,
                sizes@.len() == i,
                forall|k: int| 0 <= k < i ==> sizes@[k] == 0,
            decreases proc_num + 1 - i,
        {
            sizes.push(0);
            i = i + 1;
        }
        BandwidthQueue {
            bandwidth: bandwidth_type,
            global_queue,
            current_buffers_sizes: sizes,
            merged_fifo_buffers: TimedQueue::new(),
        }
    }

    /// Puts `message` in flight with the given latency.
    pub fn push_with_latency(&mut self, message: RoutedMessage<M>, latency: usize)
        requires
            old(self).wf(),
            1 <= message.step.dest <= old(self).topology().size(),
        ensures
            final(self).wf(),
            final(self).topology() == old(self).topology(),
            final(self)@ == old(self)@.submit(message, latency),
    {
        self.global_queue.push_with_latency(message, latency);
    }

    /// Puts `message` in flight with a latency drawn from the distribution
    /// of its link. Where the link has no distribution, or one that needs a
    /// real number, nothing is drawn and the message comes back.
    pub fn push(&mut self, message: RoutedMessage<M>) -> (back: Option<RoutedMessage<M>>)
        requires
            old(self).wf(),
        ensures
            final(self).wf(),
            final(self).topology() == old(self).topology(),
            old(self).topology().drawable(message.step.source, message.step.dest) is None ==> back
                == Some(message) && final(self)@ == old(self)@,
            old(self).topology().drawable(message.step.source, message.step.dest) matches Some(d)
                ==> back is None && exists|latency: usize|
                d.admits(latency) && #[trigger] old(self)@.submit(message, latency) == final(self)@,
    {
        let back = self.global_queue.push(message);
        proof {
            let link = old(self).topology().drawable(message.step.source, message.step.dest);
            if link is Some {
                let d = link->0;
                let latency = choose|latency: usize|
                    d.admits(latency) && #[trigger] with_letter(
                        old(self).global_queue@,
                        capped_sum(message.arrival_time.0, latency),
                        message.step,
                    ) == self.global_queue@;
                assert(old(self)@.submit(message, latency) == self@);
            }
        }
        back
    }

    /// The instant of the next step, if there is anything left to do.
    pub fn peek_closest(&self) -> (time: Option<Jiffies>)
        requires
            self.wf(),
        ensures
            time == match self@.next_instant() {
                Some(t) => Some(Jiffies(t)),
                None => None,
            },
            sorted_by_time(self@.in_flight),
            sorted_by_time(self@.released),
    {
        let arriving = self.global_queue.peek();
        let squeezing = self.merged_fifo_buffers.peek_time();
        match (arriving, squeezing) {
            (None, None) => None,
            (Some(l), None) => Some(l),
            (None, Some(b)) => Some(Jiffies(b)),
            (Some(l), Some(b)) => {
                if l.0 <= b {
                    Some(l)
                } else {
                    Some(Jiffies(b))
                }
            },
        }
    }

    /// One step: a message moves from flight to its interface, or a
    /// waiting message is handed out for delivery, whichever is due first;
    /// where both are due at the same instant, the arrival goes first.
    pub fn pop(&mut self) -> (step: BandwidthQueueOptions<M>)
        requires
            old(self).wf(),
        ensures
            final(self).wf(),
            final(self).topology() == old(self).topology(),
            old(self)@.next_instant() is None ==> step is Idle && final(self)@ == old(self)@,
            old(self)@.releases_next() ==> step is MessageArrivedByLatency
                && final(self)@ == old(self)@.release(),
            old(self)@.next_instant() is Some && !old(self)@.releases_next() ==> step == (
            BandwidthQueueOptions::Delivered(
                RoutedMessage {
                    arrival_time: Jiffies(old(self)@.released[0].0),
                    step: old(self)@.released[0].1,
                },
            )) && final(self)@ == old(self)@.deliver() && 1 <= old(self)@.released[0].1.dest
                <= old(self).topology().size(),
    {
        let arriving = self.global_queue.peek();
        let squeezing = self.merged_fifo_buffers.peek_time();
        match (arriving, squeezing) {
            (None, None) => BandwidthQueueOptions::Idle,
            (Some(_), None) => self.deliver_from_latency_queue(),
            (None, Some(_)) => self.deliver_from_buffer(),
            (Some(l), Some(b)) => {
                if l.0 <= b {
                    self.deliver_from_latency_queue()
                } else {
                    self.deliver_from_buffer()
                }
            },
        }
    }

    /// Moves the message that arrives first to the interface of its
    /// receiver, where it waits for the bytes ahead of it and for its own.
    fn move_message_from_latency_queue_to_buffers(&mut self)
        requires
            old(self).wf(),
            old(self)@.in_flight.len() > 0,
        ensures
            final(self).wf(),
            final(self).topology() == old(self).topology(),
            final(self)@ == old(self)@.release(),
    {
        let waiting = self.merged_fifo_buffers.len();
        let popped = self.global_queue.pop();
        match popped {
            None => {},
            Some(message) => {
                let dest = message.step.dest;
                let size = message.step.size;
                let ghost parked = self.merged_fifo_buffers@;
                proof {
                    assert(1 <= old(self).global_queue@[0].1.dest <= self.topology().size());
                    assert(self.current_buffers_sizes@[dest as int] == parked_bytes(parked, dest));
                    lemma_parked_bound(parked, dest);
                    assert(parked.len() * usize::MAX <= usize::MAX * usize::MAX)
                        by (nonlinear_arith)
                        requires
                            parked.len() <= usize::MAX,
                    ;
                    assert(usize::MAX * usize::MAX + usize::MAX + usize::MAX <= u128::MAX)
                        by (nonlinear_arith)
                        requires
                            usize::MAX <= 0xffff_ffff_ffff_ffff,
                            u128::MAX == 0xffff_ffff_ffff_ffff_ffff_ffff_ffff_ffff,
                    ;
                }
                let grown: u128 = self.current_buffers_sizes[dest] + size as u128;
                self.current_buffers_sizes[dest] = grown;
                let delay: u128 = match self.bandwidth {
                    BandwidthType::Unbounded => 0,
                    BandwidthType::Bounded(rate) => grown / (rate as u128),
                };
                let due: u128 = message.arrival_time.0 as u128 + delay;
                let instant: usize = if due > usize::MAX as u128 {
                    usize::MAX
                } else {
                    due as usize
                };
                assert(instant == old(self)@.release_instant());
                self.merged_fifo_buffers.push(instant, message.step);
                proof {
                    lemma_slot_for(parked, instant);
                    lemma_with_letter_addressed(
                        parked,
                        instant,
                        message.step,
                        self.topology().size(),
                    );
                    let sizes = self.current_buffers_sizes@;
                    assert forall|other: Rank| other < sizes.len() implies sizes[other as int]
                        == #[trigger] parked_bytes(self.merged_fifo_buffers@, other) by {
                        lemma_parked_insert(
                            parked,
                            slot_for(parked, instant),
                            (instant, message.step),
                            other,
                        );
                        assert(old(self).current_buffers_sizes@[other as int] == parked_bytes(
                            parked,
                            other,
                        ));
                    }
                }
            },
        }
    }

    /// Hands out the waiting message that is due first and takes its bytes
    /// off the counter of its interface.
    fn deliver_from_buffer(&mut self) -> (step: BandwidthQueueOptions<M>)
        requires
            old(self).wf(),
            old(self)@.released.len() > 0,
        ensures
            final(self).wf(),
            final(self).topology() == old(self).topology(),
            step == (BandwidthQueueOptions::Delivered(
                RoutedMessage {
                    arrival_time: Jiffies(old(self)@.released[0].0),
                    step: old(self)@.released[0].1,
                },
            )),
            final(self)@ == old(self)@.deliver(),
            1 <= old(self)@.released[0].1.dest <= old(self).topology().size(),
    {
        let ghost parked = self.merged_fifo_buffers@;
        match self.merged_fifo_buffers.pop() {
            None => BandwidthQueueOptions::Idle,
            Some((time, letter)) => {
                proof {
                    assert(1 <= parked[0].1.dest <= self.topology().size());
                    lemma_parked_rest(parked, letter.dest);
                    assert(self.current_buffers_sizes@[letter.dest as int] == parked_bytes(
                        parked,
                        letter.dest,
                    ));
                }
                let shrunk: u128 = self.current_buffers_sizes[letter.dest] - letter.size as u128;
                self.current_buffers_sizes[letter.dest] = shrunk;
                proof {
                    lemma_rest_addressed(parked, self.topology().size());
                    let sizes = self.current_buffers_sizes@;
                    assert forall|other: Rank| other < sizes.len() implies sizes[other as int]
                        == #[trigger] parked_bytes(self.merged_fifo_buffers@, other) by {
                        lemma_parked_rest(parked, other);
                        assert(old(self).current_buffers_sizes@[other as int] == parked_bytes(
                            parked,
                            other,
                        ));
                    }
                }
                BandwidthQueueOptions::Delivered(
                    RoutedMessage { arrival_time: Jiffies(time), step: letter },
                )
            },
        }
    }

    /// Moves the message that arrives first to its interface and reports
    /// that nothing was delivered.
    fn deliver_from_latency_queue(&mut self) -> (step: BandwidthQueueOptions<M>)
        requires
            old(self).wf(),
            old(self)@.in_flight.len() > 0,
        ensures
            final(self).wf(),
            final(self).topology() == old(self).topology(),
            step is MessageArrivedByLatency,
            final(self)@ == old(self)@.release(),
    {
        self.move_message_from_latency_queue_to_buffers();
        BandwidthQueueOptions::MessageArrivedByLatency
    }

    /// The bytes buffered at the interface of `dest`.
    pub fn buffered_bytes(&self, dest: Rank) -> (bytes: u128)
        requires
            self.wf(),
            dest <= self.topology().size(),
        ensures
            bytes == self@.buffered(dest),
    {
        self.current_buffers_sizes[dest]
    }

    /// The generator that the latencies are drawn from, as it stands.
    pub closed spec fn randomness(&self) -> crate::random::Randomizer {
        self.global_queue.randomness()
    }

    /// The generator that the latencies are drawn from. What is drawn from
    /// it moves the stream of the latencies on and changes nothing else.
    pub fn randomizer(&mut self) -> (randomizer: &mut crate::random::Randomizer)
        ensures
            *randomizer == old(self).randomness(),
            final(self).randomness() == *final(randomizer),
            final(self)@ == old(self)@,
            final(self).topology() == old(self).topology(),
            old(self).wf() ==> final(self).wf(),
    {
        self.global_queue.randomizer()
    }
}

/// The state after the first `count` messages in flight have reached
/// their interfaces, one after the other.
pub open spec fn release_n<M>(state: NicState<M>, count: nat) -> NicState<M>
    decreases count,
{
    if count == 0 {
        state
    } else {
        release_n(state, (count - 1) as nat).release()
    }
}

/// Without a bound on the bandwidth a message leaves its interface at the
/// instant at which it arrived there.
pub proof fn lemma_unbounded_keeps_arrival<M>(state: NicState<M>)
    requires
        state.bandwidth is Unbounded,
        state.in_flight.len() > 0,
    ensures
        state.release_instant() == state.in_flight[0].0,
{
}

/// With more bytes buffered, or a later arrival, a message leaves no
/// earlier.
pub proof fn lemma_leave_instant_grows(
    bandwidth: BandwidthType,
    arrival: usize,
    buffered: nat,
    later_arrival: usize,
    more_buffered: nat,
)
    requires
        arrival <= later_arrival,
        buffered <= more_buffered,
    ensures
        leave_instant(bandwidth, arrival, buffered) <= leave_instant(
            bandwidth,
            later_arrival,
            more_buffered,
        ),
{
    match bandwidth {
        BandwidthType::Unbounded => {},
        BandwidthType::Bounded(rate) => {
            if rate > 0 {
                assert(buffered / (rate as nat) <= more_buffered / (rate as nat))
                    by (nonlinear_arith)
                    requires
                        buffered <= more_buffered,
                        rate > 0,
                ;
            }
        },
    }
}

/// Where the bandwidth is the size of a message per jiffy, messages of that
/// size that arrive together leave one jiffy apart: the one behind `count`
/// others leaves one jiffy after the one behind `count - 1` others.
pub proof fn lemma_one_jiffy_apart(size: usize, arrival: usize, count: nat)
    requires
        size > 0,
        arrival + count + 1 <= usize::MAX,
    ensures
        leave_instant(BandwidthType::Bounded(size), arrival, ((count + 1) * size) as nat)
            == arrival + count + 1,
        leave_instant(BandwidthType::Bounded(size), arrival, ((count + 1) * size) as nat)
            == leave_instant(BandwidthType::Bounded(size), arrival, (count * size) as nat) + 1,
{
    assert((((count + 1) * size) as nat) / (size as nat) == count + 1) by (nonlinear_arith)
        requires
            size > 0,
    ;
    assert(((count * size) as nat) / (size as nat) == count) by (nonlinear_arith)
        requires
            size > 0,
    ;
}

/// What is among the waiting messages stays among them when another joins.
pub proof fn lemma_with_letter_keeps<M>(
    queue: Seq<Scheduled<M>>,
    time: usize,
    letter: Letter<M>,
    entry: Scheduled<M>,
)
    requires
        queue.contains(entry),
    ensures
        with_letter(queue, time, letter).contains(entry),
        with_letter(queue, time, letter).contains((time, letter)),
{
    crate::queue::lemma_slot_in_range(queue, time);
    let p = slot_for(queue, time);
    let after = with_letter(queue, time, letter);
    let w = choose|w: int| 0 <= w < queue.len() && queue[w] == entry;
    if w < p {
        assert(after[w] == entry);
    } else {
        assert(after[w + 1] == entry);
    }
    assert(after[p] == (time, letter));
}

/// A burst: `count` messages of `size` bytes arrive together at an
/// interface at which nothing waits. The `i`-th of them, counted from one,
/// leaves `i * size / rate` jiffies after the arrival.
pub proof fn lemma_burst<M>(
    state: NicState<M>,
    count: nat,
    dest: Rank,
    size: usize,
    rate: usize,
    arrival: usize,
)
    requires
        state.bandwidth == BandwidthType::Bounded(rate),
        rate > 0,
        state.buffered(dest) == 0,
        count <= state.in_flight.len(),
        forall|k: int|
            0 <= k < count ==> (#[trigger] state.in_flight[k]).0 == arrival
                && state.in_flight[k].1.dest == dest && state.in_flight[k].1.size == size,
    ensures
        release_n(state, count).bandwidth == state.bandwidth,
        release_n(state, count).in_flight == state.in_flight.subrange(
            count as int,
            state.in_flight.len() as int,
        ),
        release_n(state, count).buffered(dest) == count * size,
        forall|i: int|
            1 <= i <= count ==> release_n(state, count).released.contains(
                (
                    leave_instant(state.bandwidth, arrival, (i * size) as nat),
                    (#[trigger] state.in_flight[i - 1]).1,
                ),
            ),
    decreases count,
{
    if count == 0 {
        assert(state.in_flight.subrange(0, state.in_flight.len() as int) =~= state.in_flight);
    } else {
        let fewer = (count - 1) as nat;
        lemma_burst(state, fewer, dest, size, rate, arrival);
        let middle = release_n(state, fewer);
        let after = release_n(state, count);
        assert(after == middle.release());
        assert(middle.in_flight[0] == state.in_flight[fewer as int]);
        assert(middle.in_flight.subrange(1, middle.in_flight.len() as int)
            =~= state.in_flight.subrange(count as int, state.in_flight.len() as int));
        let instant = middle.release_instant();
        let letter = middle.in_flight[0].1;
        assert(fewer * size + size == count * size) by (nonlinear_arith)
            requires
                fewer + 1 == count,
        ;
        assert(instant == leave_instant(state.bandwidth, arrival, (count * size) as nat));
        crate::queue::lemma_slot_in_range(middle.released, instant);
        lemma_parked_insert(
            middle.released,
            slot_for(middle.released, instant),
            (instant, letter),
            dest,
        );
        assert forall|i: int| 1 <= i <= count implies after.released.contains(
            (
                leave_instant(state.bandwidth, arrival, (i * size) as nat),
                (#[trigger] state.in_flight[i - 1]).1,
            ),
        ) by {
            if i < count {
                lemma_with_letter_keeps(
                    middle.released,
                    instant,
                    letter,
                    (
                        leave_instant(state.bandwidth, arrival, (i * size) as nat),
                        state.in_flight[i - 1].1,
                    ),
                );
            } else {
                crate::queue::lemma_slot_in_range(middle.released, instant);
                assert(after.released[slot_for(middle.released, instant)] == (instant, letter));
            }
        }
    }
}

/// What may happen at the interfaces without a delivery at the interface of
/// `dest`: a message arrives at some interface, or a message is delivered at
/// another interface.
pub open spec fn quiet_step<M>(dest: Rank, before: NicState<M>, after: NicState<M>) -> bool {
    ||| before.in_flight.len() > 0 && after == before.release()
    ||| before.released.len() > 0 && before.released[0].1.dest != dest && after
        == before.deliver()
}

/// Whether each of `states` follows the one before it without a delivery
/// at the interface of `dest`.
pub open spec fn quiet<M>(dest: Rank, states: Seq<NicState<M>>) -> bool {
    &&& states.len() >= 1
    &&& forall|k: int|
        0 <= k < states.len() - 1 ==> quiet_step(dest, #[trigger] states[k], states[k + 1])
}

/// Whether `entry`, a message for `dest` that arrived at `arrival`, still
/// waits in `state` with at least `bytes` bytes buffered at its interface,
/// and nothing in flight is due before `arrival`.
pub open spec fn still_waits<M>(
    state: NicState<M>,
    dest: Rank,
    entry: Scheduled<M>,
    bytes: nat,
    arrival: usize,
) -> bool {
    &&& sorted_by_time(state.released)
    &&& state.released.contains(entry)
    &&& state.buffered(dest) >= bytes
    &&& crate::queue::all_from(state.in_flight, arrival)
}

/// A message that waits at an interface goes on waiting there, with no
/// fewer bytes buffered, while nothing is delivered at that interface.
pub proof fn lemma_quiet_step_keeps<M>(
    before: NicState<M>,
    after: NicState<M>,
    dest: Rank,
    entry: Scheduled<M>,
    bytes: nat,
    arrival: usize,
)
    requires
        entry.1.dest == dest,
        still_waits(before, dest, entry, bytes, arrival),
        quiet_step(dest, before, after),
    ensures
        still_waits(after, dest, entry, bytes, arrival),
        after.bandwidth == before.bandwidth,
{
    if before.in_flight.len() > 0 && after == before.release() {
        let instant = before.release_instant();
        let letter = before.in_flight[0].1;
        crate::queue::lemma_slot_in_range(before.released, instant);
        crate::queue::lemma_insert_keeps_sorted(before.released, instant, letter);
        lemma_with_letter_keeps(before.released, instant, letter, entry);
        lemma_parked_insert(
            before.released,
            slot_for(before.released, instant),
            (instant, letter),
            dest,
        );
        crate::queue::lemma_rest_all_from(before.in_flight, arrival);
    } else {
        let rest = before.released.subrange(1, before.released.len() as int);
        lemma_parked_rest(before.released, dest);
        let w = choose|w: int| 0 <= w < before.released.len() && before.released[w] == entry;
        assert(w > 0);
        assert(rest[w - 1] == entry);
        assert forall|i: int, j: int| 0 <= i <= j < rest.len() implies rest[i].0 <= rest[j].0 by {
            assert(rest[i] == before.released[i + 1]);
            assert(rest[j] == before.released[j + 1]);
        }
    }
}

/// What holds of the first of a row of quiet states holds of each.
pub proof fn lemma_quiet_keeps<M>(
    states: Seq<NicState<M>>,
    dest: Rank,
    entry: Scheduled<M>,
    bytes: nat,
    arrival: usize,
    upto: int,
)
    requires
        entry.1.dest == dest,
        quiet(dest, states),
        still_waits(states[0], dest, entry, bytes, arrival),
        0 <= upto < states.len(),
    ensures
        still_waits(states[upto], dest, entry, bytes, arrival),
        states[upto].bandwidth == states[0].bandwidth,
    decreases upto,
{
    if upto > 0 {
        lemma_quiet_keeps(states, dest, entry, bytes, arrival, upto - 1);
        assert(quiet_step(dest, states[upto - 1], states[upto - 1 + 1]));
        lemma_quiet_step_keeps(states[upto - 1], states[upto], dest, entry, bytes, arrival);
    }
}

/// Two messages for one receiver keep their order as long as nothing is
/// delivered at the interface of that receiver between their arrivals: the
/// one that arrived first stands in front of the other among the waiting
/// messages, and so leaves first. `first` is the state in which the first
/// message is about to arrive; `states` are the states from its arrival
/// to the one in which the second message is about to arrive.
pub proof fn lemma_release_keeps_order<M>(first: NicState<M>, states: Seq<NicState<M>>)
    requires
        first.in_flight.len() > 0,
        sorted_by_time(first.in_flight),
        sorted_by_time(first.released),
        states.len() >= 1,
        states[0] == first.release(),
        quiet(first.in_flight[0].1.dest, states),
        states.last().in_flight.len() > 0,
        states.last().in_flight[0].1.dest == first.in_flight[0].1.dest,
    ensures
        exists|i: int, j: int|
            0 <= i < j < states.last().release().released.len()
                && #[trigger] states.last().release().released[i].1 == first.in_flight[0].1
                && #[trigger] states.last().release().released[j].1
                == states.last().in_flight[0].1 && states.last().release().released[i].0
                <= states.last().release().released[j].0,
{
    let dest = first.in_flight[0].1.dest;
    let earlier = first.in_flight[0];
    let leaves_first = first.release_instant();
    let entry = (leaves_first, earlier.1);
    let bytes = (first.buffered(dest) + earlier.1.size) as nat;
    let at_first = slot_for(first.released, leaves_first);
    crate::queue::lemma_slot_in_range(first.released, leaves_first);
    crate::queue::lemma_insert_keeps_sorted(first.released, leaves_first, earlier.1);
    lemma_parked_insert(first.released, at_first, entry, dest);
    assert(states[0].released[at_first] == entry);
    crate::queue::lemma_sorted_all_from(first.in_flight, earlier.0);
    crate::queue::lemma_rest_all_from(first.in_flight, earlier.0);
    assert(still_waits(states[0], dest, entry, bytes, earlier.0));
    lemma_quiet_keeps(states, dest, entry, bytes, earlier.0, states.len() - 1);
    let last = states.last();
    let later = last.in_flight[0];
    assert(earlier.0 <= later.0);
    let leaves_second = last.release_instant();
    lemma_leave_instant_grows(
        first.bandwidth,
        earlier.0,
        bytes,
        later.0,
        (last.buffered(dest) + later.1.size) as nat,
    );
    assert(leaves_first <= leaves_second);
    let i = choose|i: int| 0 <= i < last.released.len() && last.released[i] == entry;
    let at_second = slot_for(last.released, leaves_second);
    lemma_slot_for(last.released, leaves_second);
    assert(i < at_second) by {
        if at_second <= i {
            assert(last.released[i].0 > leaves_second);
        }
    }
    let done = last.release();
    assert(done.released[i] == last.released[i]);
    assert(done.released[at_second] == (leaves_second, later.1));
    assert(done.released[i].1 == first.in_flight[0].1);
    assert(done.released[at_second].1 == last.in_flight[0].1);
}

} // verus!
