//! The network of a run: it takes what processes send, gives each message
//! its latency and hands out what is due for delivery.

use std::collections::VecDeque;
use std::rc::Rc;
use vstd::prelude::*;

use crate::bandwidth::BandwidthQueue;
use crate::bandwidth::BandwidthQueueOptions;
use crate::bandwidth::BandwidthType;
use crate::bandwidth::NicState;
use crate::context::Outgoing;
use crate::jiffies::capped_add;
use crate::jiffies::capped_sum;
use crate::jiffies::Jiffies;
use crate::latency::LatencyQueue;
use crate::message::Destination;
use crate::message::Letter;
use crate::message::RoutedMessage;
use crate::message::Scheduled;
use crate::random::Distributions;
use crate::random::Randomizer;
use crate::random::Seed;
use crate::topology::Rank;
use crate::topology::Topology;

verus! {

/// How far the network got with the messages handed to it.
#[derive(Clone, Copy, Debug, PartialEq, Eq, Structural)]
pub enum Routing {
    /// Every message has its latency and is in flight.
    Settled,
    /// The message in front needs a latency drawn from a real number with
    /// the given mean and standard deviation.
    NeedsRealDraw { mean: Jiffies, std_dev: Jiffies },
    /// The message in front travels a link that has no distribution.
    Unroutable { from: Rank, to: Rank },
}

/// The message `message` of `size` bytes on its way from `source` to `dest`.
pub open spec fn routed<M>(
    base: Jiffies,
    source: Rank,
    dest: Rank,
    size: usize,
    message: Rc<M>,
) -> RoutedMessage<M> {
    RoutedMessage { arrival_time: base, step: Letter { source, dest, size, message } }
}

/// The messages that one request to send stands for: one for each rank of
/// the run where it is a broadcast, else one.
pub open spec fn expand<M>(
    message: Rc<M>,
    size: usize,
    source: Rank,
    destination: Destination,
    base: Jiffies,
    ranks: nat,
) -> Seq<RoutedMessage<M>> {
    match destination {
        Destination::Broadcast => Seq::new(
            ranks,
            |i: int| routed(base, source, (i + 1) as usize, size, message),
        ),
        Destination::To(to) => seq![routed(base, source, to, size, message)],
        Destination::SendSelf => seq![routed(base, source, source, size, message)],
    }
}

/// The messages that the requests of `source` stand for, in their order.
pub open spec fn expand_all<M>(
    requests: Seq<Outgoing<M>>,
    source: Rank,
    base: Jiffies,
    ranks: nat,
) -> Seq<RoutedMessage<M>>
    decreases requests.len(),
{
    if requests.len() == 0 {
        Seq::empty()
    } else {
        expand_all(requests.drop_last(), source, base, ranks) + expand(
            requests.last().message,
            requests.last().size,
            source,
            requests.last().destination,
            base,
            ranks,
        )
    }
}

/// Whether `latency` is a value that the link of `message` can produce
/// without a real number.
pub open spec fn admitted<M>(
    topology: Topology,
    message: RoutedMessage<M>,
    latency: usize,
) -> bool {
    topology.drawable(message.step.source, message.step.dest) matches Some(d) && d.admits(latency)
}

/// Whether `after` is `before` with the messages of `messages` put in
/// flight in their order, each with a latency that its link can produce.
pub open spec fn drawn<M>(
    before: NicState<M>,
    messages: Seq<RoutedMessage<M>>,
    after: NicState<M>,
    topology: Topology,
) -> bool
    decreases messages.len(),
{
    if messages.len() == 0 {
        after == before
    } else {
        exists|middle: NicState<M>, latency: usize|
            drawn(before, messages.drop_last(), middle, topology) && admitted(
                topology,
                messages.last(),
                latency,
            ) && after == #[trigger] middle.submit(messages.last(), latency)
    }
}

/// `before` with the messages of `messages` put in flight in their order,
/// the `i`-th with the `i`-th latency of `latencies`.
pub open spec fn submit_all<M>(
    before: NicState<M>,
    messages: Seq<RoutedMessage<M>>,
    latencies: Seq<usize>,
) -> NicState<M>
    decreases messages.len(),
{
    if messages.len() == 0 || latencies.len() != messages.len() {
        before
    } else {
        submit_all(before, messages.drop_last(), latencies.drop_last()).submit(
            messages.last(),
            latencies.last(),
        )
    }
}

/// Whether `latencies` holds, for each message of `messages`, a latency
/// that its link can produce without a real number.
pub open spec fn all_admitted<M>(
    topology: Topology,
    messages: Seq<RoutedMessage<M>>,
    latencies: Seq<usize>,
) -> bool {
    &&& latencies.len() == messages.len()
    &&& forall|i: int|
        0 <= i < messages.len() ==> admitted(topology, #[trigger] messages[i], latencies[i])
}

/// What the network holds after it gave messages their latencies is fixed
/// by the latencies that were drawn: two runs that start from the same
/// state, are handed the same messages and draw the same latencies end in
/// the same state.
pub proof fn lemma_drawn_follows_draws<M>(
    before: NicState<M>,
    messages: Seq<RoutedMessage<M>>,
    after: NicState<M>,
    topology: Topology,
)
    requires
        drawn(before, messages, after, topology),
    ensures
        exists|latencies: Seq<usize>|
            all_admitted(topology, messages, latencies) && after == #[trigger] submit_all(
                before,
                messages,
                latencies,
            ),
    decreases messages.len(),
{
    if messages.len() == 0 {
        let none = Seq::<usize>::empty();
        assert(all_admitted(topology, messages, none));
        assert(after == submit_all(before, messages, none));
    } else {
        let (middle, latency) = choose|middle: NicState<M>, latency: usize|
            drawn(before, messages.drop_last(), middle, topology) && admitted(
                topology,
                messages.last(),
                latency,
            ) && after == #[trigger] middle.submit(messages.last(), latency);
        lemma_drawn_follows_draws(before, messages.drop_last(), middle, topology);
        let earlier = choose|latencies: Seq<usize>|
            all_admitted(topology, messages.drop_last(), latencies) && middle
                == #[trigger] submit_all(before, messages.drop_last(), latencies);
        let latencies = earlier.push(latency);
        assert(latencies.drop_last() =~= earlier);
        assert(latencies.last() == latency);
        assert forall|i: int| 0 <= i < messages.len() implies admitted(
            topology,
            #[trigger] messages[i],
            latencies[i],
        ) by {
            if i < messages.len() - 1 {
                assert(messages.drop_last()[i] == messages[i]);
                assert(admitted(topology, messages.drop_last()[i], earlier[i]));
            }
        }
        assert(all_admitted(topology, messages, latencies));
        assert(after == submit_all(before, messages, latencies));
    }
}

/// Whether no message of `messages` is due before `now`.
pub open spec fn none_early<M>(messages: Seq<RoutedMessage<M>>, now: usize) -> bool {
    forall|i: int| 0 <= i < messages.len() ==> now <= (#[trigger] messages[i]).arrival_time.0
}

/// The network of a run.
pub struct Network<M> {
    seed: Seed,
    topology: Rc<Topology>,
    bandwidth_queue: BandwidthQueue<M>,
    undrawn: VecDeque<RoutedMessage<M>>,
}

impl<M> Network<M> {
    /// The messages in flight and at the receivers' interfaces.
    pub closed spec fn nic(&self) -> NicState<M> {
        self.bandwidth_queue@
    }

    /// The messages that were handed over and have no latency yet, the
    /// one handed over first in front.
    pub closed spec fn undrawn(&self) -> Seq<RoutedMessage<M>> {
        self.undrawn@
    }

    /// The pools and links of the run.
    pub closed spec fn topology(&self) -> Topology {
        *self.topology
    }

    /// The seed of the generator that the latencies are drawn from.
    pub closed spec fn seed_value(&self) -> Seed {
        self.seed
    }

    /// Whether the message in front waits for a latency drawn from a real
    /// number.
    pub open spec fn awaits_real_draw(&self) -> bool {
        self.undrawn().len() > 0 && match self.topology().distribution(
            self.undrawn()[0].step.source,
            self.undrawn()[0].step.dest,
        ) {
            Some(d) => d.needs_real_draw(),
            None => false,
        }
    }

    /// The parts of the network fit together.
    pub closed spec fn wf(&self) -> bool {
        &&& self.bandwidth_queue.wf()
        &&& self.bandwidth_queue.topology() == *self.topology
    }

    /// What a well-formed network guarantees to its users.
    pub proof fn lemma_wf(&self)
        requires
            self.wf(),
        ensures
            self.nic().bandwidth != BandwidthType::Bounded(0),
            crate::message::addressed_within(self.nic().in_flight, self.topology().size()),
            crate::message::addressed_within(self.nic().released, self.topology().size()),
    {
        self.bandwidth_queue.lemma_wf();
    }

    /// An empty network over `topology` whose latencies are drawn from a
    /// generator seeded with `seed`.
    pub fn new(seed: Seed, bandwidth_type: BandwidthType, topology: Rc<Topology>) -> (network: Self)
        requires
            bandwidth_type != BandwidthType::Bounded(0),
        ensures
            network.wf(),
            network.topology() == *topology,
            network.seed_value() == seed,
            network.undrawn() == Seq::<RoutedMessage<M>>::empty(),
            network.nic() == (NicState {
                bandwidth: bandwidth_type,
                in_flight: Seq::<Scheduled<M>>::empty(),
                released: Seq::<Scheduled<M>>::empty(),
            }),
    {
        let proc_num = topology.proc_num();
        let latency = LatencyQueue::new(Randomizer::new(seed), Rc::clone(&topology));
        Network {
            seed,
            topology,
            bandwidth_queue: BandwidthQueue::new(bandwidth_type, proc_num, latency),
            undrawn: VecDeque::new(),
        }
    }

    /// Takes one request to send: the messages that it stands for join
    /// those that wait for a latency.
    pub fn submit_single_message(
        &mut self,
        message: Rc<M>,
        size: usize,
        source: Rank,
        destination: Destination,
        base_arrival_time: Jiffies,
    )
        ensures
            final(self).wf() == old(self).wf(),
            final(self).topology() == old(self).topology(),
            final(self).nic() == old(self).nic(),
            final(self).undrawn() == old(self).undrawn() + expand(
                message,
                size,
                source,
                destination,
                base_arrival_time,
                old(self).topology().size(),
            ),
    {
        match destination {
            Destination::Broadcast => {
                let n = self.topology.proc_num();
                let mut target: usize = 0;
                assert(self.undrawn@ =~= old(self).undrawn@ + expand(
                    message,
                    size,
                    source,
                    destination,
                    base_arrival_time,
                    n as nat,
                ).take(0));
                while target < n
                    invariant
                        target <= n,
                        n == self.topology().size(),
                        n < usize::MAX,
                        destination == Destination::Broadcast,
                        self.wf() == old(self).wf(),
                        self.topology() == old(self).topology(),
                        self.nic() == old(self).nic(),
                        self.undrawn@ == old(self).undrawn@ + expand(
                            message,
                            size,
                            source,
                            destination,
                            base_arrival_time,
                            n as nat,
                        ).take(target as int),
                    decreases n - target,
                {
                    target = target + 1;
                    self.undrawn.push_back(
                        RoutedMessage {
                            arrival_time: base_arrival_time,
                            step: Letter {
                                source,
                                dest: target,
                                size,
                                message: Rc::clone(&message),
                            },
                        },
                    );
                    proof {
                        let all = expand(
                            message,
                            size,
                            source,
                            destination,
                            base_arrival_time,
                            n as nat,
                        );
                        assert(all.take(target as int) =~= all.take(target - 1).push(
                            all[target - 1],
                        ));
                        assert(self.undrawn@ =~= old(self).undrawn@ + all.take(target as int));
                    }
                }
                proof {
                    let all = expand(
                        message,
                        size,
                        source,
                        destination,
                        base_arrival_time,
                        n as nat,
                    );
                    assert(all.take(n as int) =~= all);
                }
            },
            Destination::To(to) => {
                self.undrawn.push_back(
                    RoutedMessage {
                        arrival_time: base_arrival_time,
                        step: Letter { source, dest: to, size, message },
                    },
                );
                assert(self.undrawn@ =~= old(self).undrawn@ + seq![
                    routed(base_arrival_time, source, to, size, message),
                ]);
            },
            Destination::SendSelf => {
                self.undrawn.push_back(
                    RoutedMessage {
                        arrival_time: base_arrival_time,
                        step: Letter { source, dest: source, size, message },
                    },
                );
                assert(self.undrawn@ =~= old(self).undrawn@ + seq![
                    routed(base_arrival_time, source, source, size, message),
                ]);
            },
        }
    }

    /// Takes the requests that the process with rank `source` made at
    /// instant `now`. A message sent at one instant is on its way from the
    /// next.
    pub fn submit_messages(&mut self, source: Rank, messages: Vec<Outgoing<M>>, now: Jiffies)
        ensures
            final(self).wf() == old(self).wf(),
            final(self).topology() == old(self).topology(),
            final(self).nic() == old(self).nic(),
            final(self).undrawn() == old(self).undrawn() + expand_all(
                messages@,
                source,
                Jiffies(capped_sum(now.0, 1)),
                old(self).topology().size(),
            ),
    {
        let base = Jiffies(capped_add(now.0, 1));
        let n = messages.len();
        let mut i: usize = 0;
        assert(self.undrawn@ =~= old(self).undrawn@ + expand_all(
            messages@.take(0),
            source,
            base,
            self.topology().size(),
        ));
        while i < n
            invariant
                i <= n,
                n == messages@.len(),
                base == Jiffies(capped_sum(now.0, 1)),
                self.wf() == old(self).wf(),
                self.topology() == old(self).topology(),
                self.nic() == old(self).nic(),
                self.undrawn@ == old(self).undrawn@ + expand_all(
                    messages@.take(i as int),
                    source,
                    base,
                    old(self).topology().size(),
                ),
            decreases n - i,
        {
            proof {
                let upto = messages@.take(i as int + 1);
                assert(upto.last() == messages@[i as int]);
                assert(upto.drop_last() == messages@.take(i as int));
            }
            let ghost sofar = self.undrawn@;
            self.submit_single_message(
                Rc::clone(&messages[i].message),
                messages[i].size,
                source,
                messages[i].destination,
                base,
            );
            assert(self.undrawn@ =~= old(self).undrawn@ + expand_all(
                messages@.take(i as int + 1),
                source,
                base,
                old(self).topology().size(),
            ));
            i = i + 1;
        }
        assert(messages@.take(n as int) == messages@);
    }

    /// Gives the waiting messages their latencies, one after the other,
    /// and puts them in flight. It stops in front of a message whose link
    /// has no distribution, or one that needs a real number.
    pub fn route(&mut self) -> (status: Routing)
        requires
            old(self).wf(),
        ensures
            final(self).wf(),
            final(self).topology() == old(self).topology(),
            final(self).undrawn().len() <= old(self).undrawn().len(),
            final(self).undrawn() == old(self).undrawn().skip(
                old(self).undrawn().len() - final(self).undrawn().len(),
            ),
            drawn(
                old(self).nic(),
                old(self).undrawn().take(old(self).undrawn().len() - final(self).undrawn().len()),
                final(self).nic(),
                old(self).topology(),
            ),
            status is Settled <==> final(self).undrawn().len() == 0,
            old(self).undrawn().len() == 0 ==> *final(self) == *old(self),
            status matches Routing::NeedsRealDraw { mean, std_dev }
                ==> final(self).topology().distribution(
                final(self).undrawn()[0].step.source,
                final(self).undrawn()[0].step.dest,
            ) == Some(Distributions::Normal(mean, std_dev)),
            status matches Routing::Unroutable { from, to }
                ==> from == final(self).undrawn()[0].step.source
                && to == final(self).undrawn()[0].step.dest
                && final(self).topology().distribution(from, to) is None,
    {
        let ghost start = old(self).undrawn@;
        let ghost topology = old(self).topology();
        assert(start.take(0) =~= Seq::<RoutedMessage<M>>::empty());
        assert(start.skip(0) =~= start);
        loop
            invariant
                self.wf(),
                self.topology() == topology,
                topology == old(self).topology(),
                start == old(self).undrawn@,
                self.undrawn@.len() <= start.len(),
                self.undrawn@.len() == start.len() ==> *self == *old(self),
                self.undrawn@ == start.skip(start.len() - self.undrawn@.len()),
                drawn(
                    old(self).nic(),
                    start.take(start.len() - self.undrawn@.len()),
                    self.nic(),
                    topology,
                ),
            decreases self.undrawn@.len(),
        {
            if self.undrawn.len() == 0 {
                return Routing::Settled;
            }
            let from = self.undrawn[0].step.source;
            let to = self.undrawn[0].step.dest;
            if !self.topology.has_distribution(from, to) {
                return Routing::Unroutable { from, to };
            }
            match self.topology.get_distribution(from, to) {
                Distributions::Normal(mean, std_dev) => {
                    return Routing::NeedsRealDraw { mean, std_dev };
                },
                d => {
                    let ghost before = self.nic();
                    let ghost waiting = self.undrawn@;
                    let ghost done = start.len() - waiting.len();
                    match self.undrawn.pop_front() {
                        None => {},
                        Some(message) => {
                            let back = self.bandwidth_queue.push(message);
                            proof {
                                assert(message == start[done]);
                                assert(self.undrawn@ =~= start.skip(done + 1));
                                let latency = choose|latency: usize|
                                    d.admits(latency) && #[trigger] before.submit(message, latency)
                                        == self.nic();
                                let upto = start.take(done + 1);
                                assert(upto.last() == message);
                                assert(upto.drop_last() =~= start.take(done));
                                assert(admitted(topology, upto.last(), latency));
                                assert(self.nic() == before.submit(upto.last(), latency));
                            }
                        },
                    }
                },
            }
        }
    }

    /// Puts the message in front in flight with `latency`, where that
    /// message waits for a latency drawn from a real number. It says
    /// whether it did.
    pub fn supply_latency(&mut self, latency: usize) -> (taken: bool)
        requires
            old(self).wf(),
        ensures
            final(self).wf(),
            final(self).topology() == old(self).topology(),
            taken == old(self).awaits_real_draw(),
            taken ==> final(self).undrawn() == old(self).undrawn().skip(1) && final(self).nic()
                == old(self).nic().submit(old(self).undrawn()[0], latency),
            !taken ==> final(self).undrawn() == old(self).undrawn()
                && final(self).nic() == old(self).nic(),
    {
        if self.undrawn.len() == 0 {
            return false;
        }
        let from = self.undrawn[0].step.source;
        let to = self.undrawn[0].step.dest;
        if !self.topology.has_distribution(from, to) {
            return false;
        }
        match self.topology.get_distribution(from, to) {
            Distributions::Normal(_, _) => {
                match self.undrawn.pop_front() {
                    None => false,
                    Some(message) => {
                        self.bandwidth_queue.push_with_latency(message, latency);
                        assert(self.undrawn@ =~= old(self).undrawn@.skip(1));
                        true
                    },
                }
            },
            _ => false,
        }
    }

    /// The instant of the next step of the network, if it has one.
    pub fn peek_closest(&self) -> (time: Option<Jiffies>)
        requires
            self.wf(),
        ensures
            time == match self.nic().next_instant() {
                Some(t) => Some(Jiffies(t)),
                None => None,
            },
            crate::queue::sorted_by_time(self.nic().in_flight),
            crate::queue::sorted_by_time(self.nic().released),
    {
        self.bandwidth_queue.peek_closest()
    }

    /// One step of the network. A message that reaches the interface of
    /// its receiver waits there and nothing is handed out; a message that
    /// leaves the interface is handed out for delivery.
    pub fn step(&mut self) -> (delivery: Option<RoutedMessage<M>>)
        requires
            old(self).wf(),
        ensures
            final(self).wf(),
            final(self).topology() == old(self).topology(),
            final(self).undrawn() == old(self).undrawn(),
            old(self).nic().next_instant() is None ==> delivery is None
                && final(self).nic() == old(self).nic(),
            old(self).nic().releases_next() ==> delivery is None
                && final(self).nic() == old(self).nic().release(),
            old(self).nic().next_instant() is Some && !old(self).nic().releases_next() ==> delivery
                == Some(
                (RoutedMessage {
                    arrival_time: Jiffies(old(self).nic().released[0].0),
                    step: old(self).nic().released[0].1,
                }),
            ) && final(self).nic() == old(self).nic().deliver()
                && 1 <= old(self).nic().released[0].1.dest <= old(self).topology().size(),
    {
        match self.bandwidth_queue.pop() {
            BandwidthQueueOptions::Idle => None,
            BandwidthQueueOptions::MessageArrivedByLatency => None,
            BandwidthQueueOptions::Delivered(message) => Some(message),
        }
    }

    /// The generator that the latencies are drawn from, as it stands.
    pub closed spec fn randomness(&self) -> Randomizer {
        self.bandwidth_queue.randomness()
    }

    /// The generator that the latencies are drawn from. What is drawn from
    /// it moves the stream of the latencies on and changes nothing else.
    pub fn randomizer(&mut self) -> (randomizer: &mut Randomizer)
        ensures
            *randomizer == old(self).randomness(),
            final(self).randomness() == *final(randomizer),
            final(self).seed_value() == old(self).seed_value(),
            final(self).nic() == old(self).nic(),
            final(self).undrawn() == old(self).undrawn(),
            final(self).topology() == old(self).topology(),
            old(self).wf() ==> final(self).wf(),
    {
        self.bandwidth_queue.randomizer()
    }

    /// The seed that the network was made with.
    pub fn seed(&self) -> (seed: Seed)
        ensures
            seed == self.seed_value(),
    {
        self.seed
    }
}

} // verus!
