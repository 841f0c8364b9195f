//! The event loop: it finds the next event among the network and the
//! timers, moves the clock to it and lets it happen.

use std::rc::Rc;
use vstd::prelude::*;

use crate::bandwidth::leave_instant;
use crate::bandwidth::BandwidthType;
use crate::bandwidth::NicState;
use crate::clock::Clock;
use crate::context::Context;
use crate::context::Outgoing;
use crate::jiffies::capped_sum;
use crate::jiffies::Jiffies;
use crate::kv::Kv;
use crate::kv::Value;
use crate::message::RoutedMessage;
use crate::message::Scheduled;
use crate::metrics::Metrics;
use crate::network::drawn;
use crate::network::expand;
use crate::network::expand_all;
use crate::network::none_early;
use crate::network::Network;
use crate::network::Routing;
use crate::process::DScaleMessage;
use crate::process::Nursery;
use crate::process::ProcessHandle;
use crate::queue::all_from;
use crate::queue::sorted_by_time;
use crate::random::Distributions;
use crate::random::Randomizer;
use crate::random::Seed;
use crate::timer::owned_within;
use crate::timer::with_timers;
use crate::timer::PendingTimer;
use crate::timer::TimerId;
use crate::timer::TimerManager;
use crate::topology::Rank;
use crate::topology::Topology;

verus! {

/// A source of events.
#[derive(Clone, Copy, Debug, PartialEq, Eq, Structural)]
pub enum Actor {
    /// Messages that arrive at an interface or leave it.
    Network,
    /// Timers that fire.
    Timers,
}

/// What an event is to the processes.
#[derive(Clone, Copy, Debug, PartialEq, Eq, Structural)]
pub enum EventKind {
    /// A message reaches the interface of its receiver. No process is
    /// told.
    Arrival,
    /// A message is handed to its receiver.
    Message,
    /// A timer fires.
    Timer,
}

/// Where a run stands.
#[derive(Clone, Copy, Debug, PartialEq, Eq, Structural)]
pub enum Status {
    /// The last event is done and the run can go on.
    Running,
    /// The clock has reached the time budget.
    BudgetReached,
    /// The budget is not used up and no event is left.
    Deadlock,
    /// A message waits for a latency drawn from a real number with the
    /// given mean and standard deviation.
    NeedsRealDraw { mean: Jiffies, std_dev: Jiffies },
    /// A message was sent over a link that has no distribution.
    Unroutable { from: Rank, to: Rank },
    /// The run has taken as many steps as can be counted.
    StepLimit,
}

/// The timers that a process asked for, each with the rank of the process.
pub open spec fn stamped(requests: Seq<(TimerId, Jiffies)>, source: Rank) -> Seq<
    (Rank, TimerId, Jiffies),
> {
    Seq::new(requests.len(), |i: int| (source, requests[i].0, requests[i].1))
}

/// The event that is due first: the earlier of the network's and the
/// timers'; the network's where both are due at the same instant.
pub open spec fn first_event<M>(nic: NicState<M>, timers: Seq<PendingTimer>) -> Option<
    (Jiffies, Actor),
> {
    match nic.next_instant() {
        None => if timers.len() == 0 {
            None
        } else {
            Some((Jiffies(timers[0].0), Actor::Timers))
        },
        Some(n) => if timers.len() == 0 || n <= timers[0].0 {
            Some((Jiffies(n), Actor::Network))
        } else {
            Some((Jiffies(timers[0].0), Actor::Timers))
        },
    }
}

/// Every message that a request stands for is on its way from `base`.
pub proof fn lemma_expand_all_base<M>(
    requests: Seq<Outgoing<M>>,
    source: Rank,
    base: Jiffies,
    ranks: nat,
)
    ensures
        none_early(expand_all(requests, source, base, ranks), base.0),
    decreases requests.len(),
{
    if requests.len() > 0 {
        lemma_expand_all_base(requests.drop_last(), source, base, ranks);
        let front = expand_all(requests.drop_last(), source, base, ranks);
        let back = expand(
            requests.last().message,
            requests.last().size,
            source,
            requests.last().destination,
            base,
            ranks,
        );
        let all = expand_all(requests, source, base, ranks);
        assert(all == front + back);
        assert forall|i: int| 0 <= i < all.len() implies base.0 <= (
        #[trigger] all[i]).arrival_time.0 by {
            if i < front.len() {
                assert(all[i] == front[i]);
            } else {
                assert(all[i] == back[i - front.len()]);
            }
        }
    }
}

/// Messages that are not due before `now` get their latencies: what is in
/// flight afterwards is not due before `now` either, and what waits at the
/// interfaces is as it was.
pub proof fn lemma_drawn_keeps<M>(
    before: NicState<M>,
    messages: Seq<RoutedMessage<M>>,
    after: NicState<M>,
    topology: Topology,
    now: usize,
)
    requires
        drawn(before, messages, after, topology),
        all_from(before.in_flight, now),
        none_early(messages, now),
    ensures
        all_from(after.in_flight, now),
        after.released == before.released,
        after.bandwidth == before.bandwidth,
    decreases messages.len(),
{
    if messages.len() > 0 {
        let (middle, latency) = choose|middle: NicState<M>, latency: usize|
            drawn(before, messages.drop_last(), middle, topology) && crate::network::admitted(
                topology,
                messages.last(),
                latency,
            ) && after == #[trigger] middle.submit(messages.last(), latency);
        assert forall|i: int| 0 <= i < messages.drop_last().len() implies now <= (
        #[trigger] messages.drop_last()[i]).arrival_time.0 by {
            assert(messages.drop_last()[i] == messages[i]);
        }
        lemma_drawn_keeps(before, messages.drop_last(), middle, topology, now);
        assert(now <= messages[messages.len() - 1].arrival_time.0);
        crate::queue::lemma_insert_all_from(
            middle.in_flight,
            capped_sum(messages.last().arrival_time.0, latency),
            messages.last().step,
            now,
        );
    }
}

/// A message leaves its interface no earlier than it arrived there.
pub proof fn lemma_leave_after_arrival(bandwidth: BandwidthType, arrival: usize, buffered: nat)
    ensures
        arrival <= leave_instant(bandwidth, arrival, buffered),
{
}

/// A run: the processes, the network between them, their timers and the
/// clock.
pub struct Simulation<M, P> {
    clock: Clock,
    time_budget: Jiffies,
    network: Network<M>,
    timers: TimerManager,
    nursery: Nursery<P>,
    ctx: Context<M>,
    started: bool,
    steps: usize,
    metrics: Metrics,
}

impl<M, P: ProcessHandle<M>> Simulation<M, P> {
    /// The instant that the clock shows.
    pub closed spec fn time(&self) -> Jiffies {
        self.clock.time()
    }

    /// The instant at which the run ends.
    pub closed spec fn budget(&self) -> Jiffies {
        self.time_budget
    }

    /// The messages in flight and at the receivers' interfaces.
    pub closed spec fn nic(&self) -> NicState<M> {
        self.network.nic()
    }

    /// The messages that wait for a latency.
    pub closed spec fn undrawn(&self) -> Seq<RoutedMessage<M>> {
        self.network.undrawn()
    }

    /// The timers that wait to fire.
    pub closed spec fn pending_timers(&self) -> Seq<PendingTimer> {
        self.timers@
    }

    /// The number of processes.
    pub closed spec fn ranks(&self) -> nat {
        self.nursery.count()
    }

    /// The pools and links of the run.
    pub closed spec fn topology(&self) -> Topology {
        self.network.topology()
    }

    /// Whether the processes have been started.
    pub closed spec fn started(&self) -> bool {
        self.started
    }

    /// The number of events handed to processes so far.
    pub closed spec fn events(&self) -> usize {
        self.metrics.events_total
    }

    /// The number of steps taken so far.
    pub closed spec fn steps(&self) -> usize {
        self.steps
    }

    /// The process with rank `rank`.
    pub closed spec fn process(&self, rank: Rank) -> P {
        self.nursery.process(rank)
    }

    /// The surroundings of the processes, as the last callback left them
    /// and the run has emptied them since.
    pub closed spec fn context(&self) -> Context<M> {
        self.ctx
    }

    /// The contents of the shared store.
    pub open spec fn store(&self) -> Map<Seq<char>, Value> {
        self.context().store()
    }

    /// The messages that the last callback asked for and that the network
    /// has not taken yet.
    pub open spec fn staged(&self) -> Seq<Outgoing<M>> {
        self.context().outgoing()
    }

    /// The timers that the last callback asked for and that are not set
    /// yet.
    pub open spec fn staged_timers(&self) -> Seq<(TimerId, Jiffies)> {
        self.context().timers()
    }

    /// The event that is due first, if any is left.
    pub open spec fn next_event(&self) -> Option<(Jiffies, Actor)> {
        first_event(self.nic(), self.pending_timers())
    }

    /// The parts of the run fit together, and nothing that waits anywhere
    /// is due before the present instant.
    pub closed spec fn wf(&self) -> bool {
        &&& self.network.wf()
        &&& self.network.topology().size() == self.nursery.count()
        &&& owned_within(self.timers@, self.nursery.count())
        &&& all_from(self.timers@, self.clock.time().0)
        &&& all_from(self.network.nic().in_flight, self.clock.time().0)
        &&& all_from(self.network.nic().released, self.clock.time().0)
        &&& none_early(self.network.undrawn(), self.clock.time().0)
    }

    /// What a well-formed run guarantees: nothing waits for an instant
    /// that has passed.
    pub proof fn lemma_wf(&self)
        requires
            self.wf(),
        ensures
            self.topology().size() == self.ranks(),
            all_from(self.pending_timers(), self.time().0),
            all_from(self.nic().in_flight, self.time().0),
            all_from(self.nic().released, self.time().0),
            none_early(self.undrawn(), self.time().0),
            self.next_event() matches Some((t, _)) ==> self.time().0 <= t.0,
    {
        if self.nic().in_flight.len() > 0 {
            assert(self.time().0 <= self.nic().in_flight[0].0);
        }
        if self.nic().released.len() > 0 {
            assert(self.time().0 <= self.nic().released[0].0);
        }
        if self.pending_timers().len() > 0 {
            assert(self.time().0 <= self.pending_timers()[0].0);
        }
    }

    /// A run of `procs` over `topology` that has not started: the clock is
    /// at zero, nothing is in flight and no timer is set.
    pub fn new(
        seed: Seed,
        time_budget: Jiffies,
        bandwidth: BandwidthType,
        topology: Topology,
        procs: Vec<P>,
    ) -> (simulation: Self)
        requires
            bandwidth != BandwidthType::Bounded(0),
            topology.size() == procs@.len(),
            seed + procs@.len() <= u64::MAX,
        ensures
            simulation.wf(),
            simulation.time() == Jiffies(0),
            simulation.budget() == time_budget,
            simulation.ranks() == procs@.len(),
            forall|rank: Rank|
                1 <= rank <= procs@.len() ==> #[trigger] simulation.process(rank) == procs@[rank
                    - 1],
            simulation.topology() == topology,
            !simulation.started(),
            simulation.events() == 0,
            simulation.steps() == 0,
            simulation.ids_issued() == 0,
            simulation.undrawn() == Seq::<RoutedMessage<M>>::empty(),
            simulation.pending_timers() == Seq::<PendingTimer>::empty(),
            simulation.nic() == (NicState {
                bandwidth,
                in_flight: Seq::<Scheduled<M>>::empty(),
                released: Seq::<Scheduled<M>>::empty(),
            }),
            simulation.store() == crate::configuration::configured(
                Map::<Seq<char>, Value>::empty(),
                procs@.len() as usize,
                seed,
            ),
            simulation.staged() == Seq::<Outgoing<M>>::empty(),
            simulation.staged_timers() == Seq::<(TimerId, Jiffies)>::empty(),
    {
        let shared = Rc::new(topology);
        let nursery = Nursery::new(procs);
        let network = Network::new(seed, bandwidth, Rc::clone(&shared));
        let mut ctx = Context::new(shared, seed);
        crate::configuration::setup_configuration(ctx.kv_mut(), nursery.size(), seed);
        Simulation {
            clock: Clock::new(),
            time_budget,
            network,
            timers: TimerManager::new(),
            nursery,
            ctx,
            started: false,
            steps: 0,
            metrics: Metrics::new(),
        }
    }

    /// The current instant.
    pub fn now(&self) -> (present: Jiffies)
        ensures
            present == self.time(),
    {
        crate::clock::now(&self.clock)
    }

    /// The instant at which the run ends.
    pub fn time_budget(&self) -> (budget: Jiffies)
        ensures
            budget == self.budget(),
    {
        self.time_budget
    }

    /// What the run has counted so far.
    pub fn metrics(&self) -> (metrics: Metrics)
        ensures
            metrics.events_total == self.events(),
    {
        self.metrics
    }

    /// The shared store.
    pub fn kv(&self) -> (kv: &Kv)
        ensures
            kv@ == self.store(),
    {
        self.ctx.kv()
    }

    /// The event that is due first and the actor that it belongs to.
    pub fn peek_closest(&self) -> (next: Option<(Jiffies, Actor)>)
        requires
            self.wf(),
        ensures
            next == self.next_event(),
            sorted_by_time(self.nic().in_flight),
            sorted_by_time(self.nic().released),
            sorted_by_time(self.pending_timers()),
    {
        let network = self.network.peek_closest();
        let timers = self.timers.peek_closest();
        match (network, timers) {
            (None, None) => None,
            (Some(n), None) => Some((n, Actor::Network)),
            (None, Some(t)) => Some((t, Actor::Timers)),
            (Some(n), Some(t)) => {
                if n.0 <= t.0 {
                    Some((n, Actor::Network))
                } else {
                    Some((t, Actor::Timers))
                }
            },
        }
    }

    /// Hands what the last callback asked for to the network and to the
    /// timers. `source` is the rank of the process whose callback it was.
    pub fn absorb(&mut self, source: Rank)
        requires
            old(self).wf(),
            1 <= source <= old(self).ranks(),
        ensures
            final(self).wf(),
            final(self).same_frame(old(self)),
            final(self).time() == old(self).time(),
            final(self).events() == old(self).events(),
            final(self).steps() == old(self).steps(),
            final(self).nic() == old(self).nic(),
            final(self).store() == old(self).store(),
            final(self).same_processes(old(self)),
            final(self).context().emptied_from(&old(self).context()),
            final(self).undrawn() == old(self).undrawn() + expand_all(
                old(self).staged(),
                source,
                Jiffies(capped_sum(old(self).time().0, 1)),
                old(self).ranks(),
            ),
            final(self).pending_timers() == with_timers(
                old(self).pending_timers(),
                stamped(old(self).staged_timers(), source),
                old(self).time(),
            ),
            final(self).staged() == Seq::<Outgoing<M>>::empty(),
            final(self).staged_timers() == Seq::<(TimerId, Jiffies)>::empty(),
    {
        let present = crate::clock::now(&self.clock);
        let messages = self.ctx.drain_messages();
        proof {
            lemma_expand_all_base(
                messages@,
                source,
                Jiffies(capped_sum(present.0, 1)),
                self.nursery.count(),
            );
        }
        self.network.submit_messages(source, messages, present);
        proof {
            let added = expand_all(
                messages@,
                source,
                Jiffies(capped_sum(present.0, 1)),
                self.nursery.count(),
            );
            let all = self.network.undrawn();
            let before = old(self).network.undrawn();
            assert forall|i: int| 0 <= i < all.len() implies present.0 <= (
            #[trigger] all[i]).arrival_time.0 by {
                if i < before.len() {
                    assert(all[i] == before[i]);
                } else {
                    assert(all[i] == added[i - before.len()]);
                }
            }
        }
        let requests = self.ctx.drain_timers();
        let mut events: Vec<(Rank, TimerId, Jiffies)> = Vec::new();
        let n = requests.len();
        let mut i: usize = 0;
        while i < n
            invariant
                i <= n,
                n == requests@.len(),
                events@.len() == i,
                forall|k: int| 0 <= k < i
                    ==> events@[k] == (source, requests@[k].0, requests@[k].1),
            decreases n - i,
        {
            events.push((source, requests[i].0, requests[i].1));
            i = i + 1;
        }
        assert(events@ =~= stamped(requests@, source));
        proof {
            crate::timer::lemma_with_timers_keeps(
                self.timers@,
                events@,
                present,
                self.nursery.count(),
            );
        }
        self.timers.submit(&mut events, present);
    }

    /// Whether what a run is made of is the same in two states: the
    /// budget, the processes, the topology and whether it has started.
    pub open spec fn same_frame(&self, other: &Self) -> bool {
        &&& self.budget() == other.budget()
        &&& self.ranks() == other.ranks()
        &&& self.topology() == other.topology()
        &&& self.started() == other.started()
    }

    /// Whether every process is in `self` what it is in `other`.
    pub open spec fn same_processes(&self, other: &Self) -> bool {
        forall|rank: Rank|
            1 <= rank <= other.ranks() ==> #[trigger] self.process(rank) == other.process(rank)
    }

    /// Whether every process but the one with rank `rank` is in `self`
    /// what it is in `other`.
    pub open spec fn same_processes_but(&self, other: &Self, rank: Rank) -> bool {
        forall|r: Rank|
            1 <= r <= other.ranks() && r != rank ==> #[trigger] self.process(r) == other.process(r)
    }

    /// Whether `self` is `before` after the messages that waited in it got
    /// their latencies, one after the other, up to the first that the
    /// library cannot give one: the clock, the timers, the processes and
    /// their surroundings are as they were.
    #[verifier::opaque]
    pub open spec fn settled_from(&self, before: &Self) -> bool {
        &&& self.same_frame(before)
        &&& self.time() == before.time()
        &&& self.events() == before.events()
        &&& self.steps() == before.steps()
        &&& self.pending_timers() == before.pending_timers()
        &&& self.same_processes(before)
        &&& self.context() == before.context()
        &&& self.nic().released == before.nic().released
        &&& self.undrawn().len() <= before.undrawn().len()
        &&& self.undrawn() == before.undrawn().skip(
            before.undrawn().len() - self.undrawn().len(),
        )
        &&& drawn(
            before.nic(),
            before.undrawn().take(before.undrawn().len() - self.undrawn().len()),
            self.nic(),
            before.topology(),
        )
        &&& self.undrawn().len() > 0 ==> before.topology().drawable(
            self.undrawn()[0].step.source,
            self.undrawn()[0].step.dest,
        ) is None
    }

    /// Gives the waiting messages their latencies and puts them in flight.
    /// It stops in front of a message whose link has no distribution, or
    /// one that needs a real number, and says so.
    pub fn settle(&mut self) -> (status: Status)
        requires
            old(self).wf(),
        ensures
            final(self).wf(),
            final(self).settled_from(old(self)),
            old(self).undrawn().len() == 0 ==> *final(self) == *old(self),
            final(self).same_frame(old(self)),
            final(self).time() == old(self).time(),
            final(self).events() == old(self).events(),
            final(self).steps() == old(self).steps(),
            final(self).store() == old(self).store(),
            final(self).pending_timers() == old(self).pending_timers(),
            final(self).staged() == old(self).staged(),
            final(self).staged_timers() == old(self).staged_timers(),
            final(self).nic().released == old(self).nic().released,
            final(self).undrawn().len() <= old(self).undrawn().len(),
            final(self).undrawn() == old(self).undrawn().skip(
                old(self).undrawn().len() - final(self).undrawn().len(),
            ),
            drawn(
                old(self).nic(),
                old(self).undrawn().take(old(self).undrawn().len() - final(self).undrawn().len()),
                final(self).nic(),
                old(self).topology(),
            ),
            old(self).undrawn().len() == 0 ==> final(self).nic() == old(self).nic(),
            final(self).halted_by(status),
            status is Running <==> final(self).undrawn().len() == 0,
    {
        let ghost taken = old(self).network.undrawn();
        let status = self.network.route();
        proof {
            reveal(Simulation::settled_from);
            let k = taken.len() - self.network.undrawn().len();
            assert forall|i: int| 0 <= i < taken.take(k).len() implies old(self).clock.time().0 <= (
            #[trigger] taken.take(k)[i]).arrival_time.0 by {
                assert(taken.take(k)[i] == taken[i]);
            }
            lemma_drawn_keeps(
                old(self).network.nic(),
                taken.take(k),
                self.network.nic(),
                old(self).network.topology(),
                old(self).clock.time().0,
            );
            let now = old(self).clock.time().0;
            assert forall|i: int| 0 <= i < self.network.undrawn().len() implies now <= (
            #[trigger] self.network.undrawn()[i]).arrival_time.0 by {
                assert(self.network.undrawn()[i] == taken[i + k]);
            }
            if taken.len() == 0 {
                assert(taken.take(k).len() == 0);
            }
        }
        match status {
            Routing::Settled => Status::Running,
            Routing::NeedsRealDraw { mean, std_dev } => Status::NeedsRealDraw { mean, std_dev },
            Routing::Unroutable { from, to } => Status::Unroutable { from, to },
        }
    }

    /// What a status says of the message that the run stopped in front of.
    pub open spec fn halted_by(&self, status: Status) -> bool {
        match status {
            Status::NeedsRealDraw { mean, std_dev } => self.undrawn().len() > 0
                && self.topology().distribution(
                self.undrawn()[0].step.source,
                self.undrawn()[0].step.dest,
            ) == Some(Distributions::Normal(mean, std_dev)),
            Status::Unroutable { from, to } => self.undrawn().len() > 0 && from
                == self.undrawn()[0].step.source && to == self.undrawn()[0].step.dest
                && self.topology().distribution(from, to) is None,
            Status::Running => true,
            _ => false,
        }
    }

    /// Puts the message in front in flight with `latency`, where that
    /// message waits for a latency drawn from a real number. It says
    /// whether it did.
    pub fn supply_latency(&mut self, latency: usize) -> (taken: bool)
        requires
            old(self).wf(),
        ensures
            final(self).wf(),
            final(self).same_frame(old(self)),
            final(self).time() == old(self).time(),
            final(self).events() == old(self).events(),
            final(self).steps() == old(self).steps(),
            final(self).store() == old(self).store(),
            final(self).pending_timers() == old(self).pending_timers(),
            taken == (old(self).undrawn().len() > 0 && match old(self).topology().distribution(
                old(self).undrawn()[0].step.source,
                old(self).undrawn()[0].step.dest,
            ) {
                Some(d) => d.needs_real_draw(),
                None => false,
            }),
            taken ==> final(self).undrawn() == old(self).undrawn().skip(1) && final(self).nic()
                == old(self).nic().submit(old(self).undrawn()[0], latency),
            !taken ==> final(self).undrawn() == old(self).undrawn()
                && final(self).nic() == old(self).nic(),
    {
        let taken = self.network.supply_latency(latency);
        proof {
            if taken {
                let head = old(self).network.undrawn()[0];
                assert(old(self).clock.time().0 <= head.arrival_time.0);
                crate::queue::lemma_insert_all_from(
                    old(self).network.nic().in_flight,
                    capped_sum(head.arrival_time.0, latency),
                    head.step,
                    old(self).clock.time().0,
                );
                let now = old(self).clock.time().0;
                assert forall|i: int| 0 <= i < self.network.undrawn().len() implies now <= (
                #[trigger] self.network.undrawn()[i]).arrival_time.0 by {
                    assert(self.network.undrawn()[i] == old(self).network.undrawn()[i + 1]);
                }
            }
        }
        taken
    }

    /// Whether `self` has taken over what the callback of the process with
    /// rank `rank` left in the surroundings `left` at the instant `at`: the
    /// messages wait for their latencies behind those that waited in
    /// `before`, the timers are set among `timers_before`, and the
    /// surroundings are `left`, emptied.
    pub open spec fn took(
        &self,
        left: &Context<M>,
        rank: Rank,
        at: Jiffies,
        before: &Self,
        timers_before: Seq<PendingTimer>,
    ) -> bool {
        &&& self.undrawn() == before.undrawn() + expand_all(
            left.outgoing(),
            rank,
            Jiffies(capped_sum(at.0, 1)),
            before.ranks(),
        )
        &&& self.pending_timers() == with_timers(timers_before, stamped(left.timers(), rank), at)
        &&& self.context().emptied_from(left)
    }

    /// Whether `self` is `before` after the message that waited in front
    /// at an interface was handed to its receiver: the receiver got it in
    /// the surroundings of `before`, shown the present instant and its own
    /// rank, and what it left there was taken over.
    pub open spec fn message_handed(&self, before: &Self) -> bool {
        let letter = before.nic().released[0].1;
        &&& self.nic() == before.nic().deliver()
        &&& self.events() == capped_sum(before.events(), 1)
        &&& self.same_processes_but(before, letter.dest)
        &&& exists|left: Context<M>|
            #[trigger] self.took(
                &left,
                letter.dest,
                before.time(),
                before,
                before.pending_timers(),
            ) && before.process(letter.dest).received(
                &self.process(letter.dest),
                &before.context().shown(before.time(), letter.dest),
                &left,
                letter.source,
                letter.message,
            )
    }

    /// Whether `self` is `before` after the timer that waited in front has
    /// fired: its owner was told in the surroundings of `before`, shown the
    /// present instant and its own rank, and what it left there was taken
    /// over.
    pub open spec fn timer_fired(&self, before: &Self) -> bool {
        let (owner, id) = before.pending_timers()[0].1;
        &&& self.nic() == before.nic()
        &&& self.events() == capped_sum(before.events(), 1)
        &&& self.same_processes_but(before, owner)
        &&& exists|left: Context<M>|
            #[trigger] self.took(
                &left,
                owner,
                before.time(),
                before,
                before.pending_timers().subrange(1, before.pending_timers().len() as int),
            ) && before.process(owner).fired(
                &self.process(owner),
                &before.context().shown(before.time(), owner),
                &left,
                id,
            )
    }

    /// Whether `self` is `before` after the message that was in front of
    /// the flight has reached the interface of its receiver. No process is
    /// told.
    pub open spec fn message_arrived(&self, before: &Self) -> bool {
        &&& self.nic() == before.nic().release()
        &&& self.undrawn() == before.undrawn()
        &&& self.pending_timers() == before.pending_timers()
        &&& self.events() == before.events()
        &&& self.same_processes(before)
        &&& self.context() == before.context()
    }

    /// Lets the network take its next step. A message that leaves the
    /// interface of its receiver is handed to the receiver, and what the
    /// receiver asks for in turn joins what waits.
    fn step_network(&mut self)
        requires
            old(self).wf(),
            old(self).nic().next_instant() is Some,
        ensures
            final(self).wf(),
            final(self).same_frame(old(self)),
            final(self).time() == old(self).time(),
            final(self).steps() == old(self).steps(),
            old(self).nic().releases_next() ==> final(self).message_arrived(old(self)),
            !old(self).nic().releases_next() ==> final(self).message_handed(old(self)),
    {
        let ghost nic = self.network.nic();
        let ghost present = self.clock.time().0;
        let delivery = self.network.step();
        proof {
            if nic.releases_next() {
                crate::queue::lemma_rest_all_from(nic.in_flight, present);
                lemma_leave_after_arrival(
                    nic.bandwidth,
                    nic.in_flight[0].0,
                    (nic.buffered(nic.in_flight[0].1.dest) + nic.in_flight[0].1.size) as nat,
                );
                assert(present <= nic.in_flight[0].0);
                crate::queue::lemma_insert_all_from(
                    nic.released,
                    nic.release_instant(),
                    nic.in_flight[0].1,
                    present,
                );
            } else {
                crate::queue::lemma_rest_all_from(nic.released, present);
            }
        }
        match delivery {
            None => {},
            Some(message) => {
                let to = message.step.dest;
                self.metrics.track_event();
                self.ctx.set_now(crate::clock::now(&self.clock));
                self.nursery.deliver(
                    &mut self.ctx,
                    message.step.source,
                    to,
                    DScaleMessage::NetworkMessage(message.step.message),
                );
                let ghost left = self.ctx;
                self.absorb(to);
                assert(self.took(
                    &left,
                    to,
                    old(self).time(),
                    old(self),
                    old(self).pending_timers(),
                ));
            },
        }
    }

    /// Lets the timer that is due first fire: its process is told, and
    /// what the process asks for in turn joins what waits.
    fn step_timers(&mut self)
        requires
            old(self).wf(),
            old(self).pending_timers().len() > 0,
        ensures
            final(self).wf(),
            final(self).same_frame(old(self)),
            final(self).time() == old(self).time(),
            final(self).steps() == old(self).steps(),
            final(self).timer_fired(old(self)),
    {
        let ghost waiting = self.timers@;
        let ghost present = self.clock.time().0;
        let fired = self.timers.step();
        proof {
            crate::queue::lemma_rest_all_from(waiting, present);
            assert forall|i: int| 0 <= i < self.timers@.len() implies 1 <= (
            #[trigger] self.timers@[i]).1.0 <= self.nursery.count() by {
                assert(self.timers@[i] == waiting[i + 1]);
            }
            assert(1 <= waiting[0].1.0 <= self.nursery.count());
        }
        match fired {
            None => {},
            Some((rank, id)) => {
                self.metrics.track_event();
                self.ctx.set_now(crate::clock::now(&self.clock));
                self.nursery.deliver(&mut self.ctx, rank, rank, DScaleMessage::Timer(id));
                let ghost left = self.ctx;
                let ghost rest = self.timers@;
                self.absorb(rank);
                assert(self.took(&left, rank, old(self).time(), old(self), rest));
            },
        }
    }

    /// The event that happens next: its instant, the process that it
    /// concerns and its kind.
    pub open spec fn next_dispatch(&self) -> Option<(Jiffies, Rank, EventKind)> {
        match self.next_event() {
            None => None,
            Some((at, Actor::Network)) => if self.nic().releases_next() {
                Some((at, self.nic().in_flight[0].1.dest, EventKind::Arrival))
            } else {
                Some((at, self.nic().released[0].1.dest, EventKind::Message))
            },
            Some((at, Actor::Timers)) => Some(
                (at, self.pending_timers()[0].1.0, EventKind::Timer),
            ),
        }
    }

    /// `self` with the clock at `at` and one more step counted.
    pub closed spec fn moved_to(self, at: Jiffies) -> Self {
        Simulation {
            clock: crate::clock::Clock::at(at),
            steps: (self.steps + 1) as usize,
            ..self
        }
    }

    /// Moving the clock changes the instant and the count of steps, and
    /// nothing else.
    pub proof fn lemma_moved_to(self, at: Jiffies)
        requires
            self.steps() < usize::MAX,
        ensures
            self.moved_to(at).time() == at,
            self.moved_to(at).steps() == self.steps() + 1,
            self.moved_to(at).same_frame(&self),
            self.moved_to(at).nic() == self.nic(),
            self.moved_to(at).undrawn() == self.undrawn(),
            self.moved_to(at).pending_timers() == self.pending_timers(),
            self.moved_to(at).events() == self.events(),
            self.moved_to(at).context() == self.context(),
            self.moved_to(at).same_processes(&self),
    {
        Clock::lemma_at(at);
    }

    /// Whether `self` is `before` after the event that was due first in
    /// `before` has happened: the clock has moved to the instant of the
    /// event and one more step is counted; then the message arrived, or
    /// was handed to its receiver, or the timer fired. The messages that
    /// the event brought still wait for their latencies.
    pub open spec fn follows_event(&self, before: &Self) -> bool {
        match before.next_dispatch() {
            None => false,
            Some((at, _, kind)) => {
                &&& before.steps() < usize::MAX
                &&& self.same_frame(before)
                &&& self.time() == at
                &&& self.steps() == before.steps() + 1
                &&& match kind {
                    EventKind::Arrival => self.message_arrived(&before.moved_to(at)),
                    EventKind::Message => self.message_handed(&before.moved_to(at)),
                    EventKind::Timer => self.timer_fired(&before.moved_to(at)),
                }
            },
        }
    }

    /// Whether `self` is `before` after a step in which an event happened:
    /// the event that was due first happened, and then the messages that
    /// waited got their latencies, as far as the library can give them.
    #[verifier::opaque]
    pub open spec fn follows_step(&self, before: &Self) -> bool {
        exists|middle: Self| #[trigger] middle.follows_event(before) && self.settled_from(&middle)
    }

    /// The event that happens next is fixed by what waits in the network
    /// and among the timers: whatever a step makes of a state, it moves the
    /// clock to the instant of that event, leaves the network as that event
    /// leaves it, and counts the event if a process was told.
    pub proof fn lemma_event_is_determined(&self, before: &Self)
        requires
            self.follows_event(before),
        ensures
            before.next_dispatch() matches Some((at, _, kind)) && self.time() == at && self.nic()
                == match kind {
                EventKind::Arrival => before.nic().release(),
                EventKind::Message => before.nic().deliver(),
                EventKind::Timer => before.nic(),
            } && self.events() == match kind {
                EventKind::Arrival => before.events(),
                _ => capped_sum(before.events(), 1),
            },
    {
        let next = before.next_dispatch()->0;
        before.lemma_moved_to(next.0);
    }

    /// Whether what a process makes of a callback is fixed by what it is
    /// handed: no process can come out of the same callback, in the same
    /// surroundings, in two ways.
    pub open spec fn callbacks_are_functions() -> bool {
        &&& forall|p: P, a: P, b: P, handed: Context<M>, x: Context<M>, y: Context<M>|
            #[trigger] p.started(&a, &handed, &x) && #[trigger] p.started(&b, &handed, &y) ==> a
                == b && x == y
        &&& forall|
            p: P,
            a: P,
            b: P,
            handed: Context<M>,
            x: Context<M>,
            y: Context<M>,
            from: Rank,
            message: Rc<M>,
        |
            #[trigger] p.received(&a, &handed, &x, from, message) && #[trigger] p.received(
                &b,
                &handed,
                &y,
                from,
                message,
            ) ==> a == b && x == y
        &&& forall|p: P, a: P, b: P, handed: Context<M>, x: Context<M>, y: Context<M>, id: TimerId|
            #[trigger] p.fired(&a, &handed, &x, id) && #[trigger] p.fired(&b, &handed, &y, id)
                ==> a == b && x == y
    }

    /// Whether two states show the same to whoever looks at them: the
    /// clock, the network, the timers, the counters, the processes and
    /// what the processes find in their surroundings.
    pub open spec fn agrees_with(&self, other: &Self) -> bool {
        &&& self.same_frame(other)
        &&& self.time() == other.time()
        &&& self.steps() == other.steps()
        &&& self.events() == other.events()
        &&& self.nic() == other.nic()
        &&& self.undrawn() == other.undrawn()
        &&& self.pending_timers() == other.pending_timers()
        &&& self.same_processes(other)
        &&& self.context().shows_the_same(&other.context())
    }

    /// Two runs that stand in the same state and whose processes make of a
    /// callback what they are handed, and nothing else, stand in the same
    /// state after the next event: the same event happens at the same
    /// instant to the same process, which asks for the same.
    pub proof fn lemma_event_is_function(first: &Self, second: &Self, before: &Self)
        requires
            Self::callbacks_are_functions(),
            first.follows_event(before),
            second.follows_event(before),
        ensures
            first.agrees_with(second),
    {
        let next = before.next_dispatch()->0;
        let at = next.0;
        let rank = next.1;
        let moved = before.moved_to(at);
        before.lemma_moved_to(at);
        match next.2 {
            EventKind::Arrival => {},
            EventKind::Message => {
                let x = choose|left: Context<M>|
                    #[trigger] first.took(&left, rank, moved.time(), &moved, moved.pending_timers())
                        && moved.process(rank).received(
                        &first.process(rank),
                        &moved.context().shown(moved.time(), rank),
                        &left,
                        moved.nic().released[0].1.source,
                        moved.nic().released[0].1.message,
                    );
                let y = choose|left: Context<M>|
                    #[trigger] second.took(&left, rank, moved.time(), &moved, moved.pending_timers())
                        && moved.process(rank).received(
                        &second.process(rank),
                        &moved.context().shown(moved.time(), rank),
                        &left,
                        moved.nic().released[0].1.source,
                        moved.nic().released[0].1.message,
                    );
                assert(x == y);
            },
            EventKind::Timer => {
                let rest = moved.pending_timers().subrange(
                    1,
                    moved.pending_timers().len() as int,
                );
                let x = choose|left: Context<M>|
                    #[trigger] first.took(&left, rank, moved.time(), &moved, rest)
                        && moved.process(rank).fired(
                        &first.process(rank),
                        &moved.context().shown(moved.time(), rank),
                        &left,
                        moved.pending_timers()[0].1.1,
                    );
                let y = choose|left: Context<M>|
                    #[trigger] second.took(&left, rank, moved.time(), &moved, rest)
                        && moved.process(rank).fired(
                        &second.process(rank),
                        &moved.context().shown(moved.time(), rank),
                        &left,
                        moved.pending_timers()[0].1.1,
                    );
                assert(x == y);
            },
        }
    }

    /// Moves the clock to the event that is due first and lets it happen.
    /// The messages that it brought still wait for their latencies. No
    /// message may wait for a latency when the clock moves.
    fn advance(&mut self) -> (moved: bool)
        requires
            old(self).wf(),
            old(self).steps() < usize::MAX,
            old(self).undrawn().len() == 0,
        ensures
            final(self).wf(),
            final(self).same_frame(old(self)),
            moved == old(self).next_event() is Some,
            moved ==> final(self).follows_event(old(self)),
            !moved ==> *final(self) == *old(self),
            old(self).time().0 <= final(self).time().0,
    {
        proof {
            self.lemma_wf();
        }
        match self.peek_closest() {
            None => false,
            Some((future, actor)) => {
                proof {
                    crate::queue::lemma_sorted_all_from(self.network.nic().in_flight, future.0);
                    crate::queue::lemma_sorted_all_from(self.network.nic().released, future.0);
                    crate::queue::lemma_sorted_all_from(self.timers@, future.0);
                }
                crate::clock::fast_forward_clock(&mut self.clock, future);
                self.steps = self.steps + 1;
                proof {
                    old(self).lemma_moved_to(future);
                    assert(*self == old(self).moved_to(future));
                }
                match actor {
                    Actor::Network => self.step_network(),
                    Actor::Timers => self.step_timers(),
                }
                true
            },
        }
    }

    /// What a run that stands as `self` does is to say of itself: why it
    /// cannot go on, or that it can.
    pub open spec fn verdict(&self) -> Status {
        if self.undrawn().len() > 0 {
            let from = self.undrawn()[0].step.source;
            let to = self.undrawn()[0].step.dest;
            match self.topology().distribution(from, to) {
                Some(Distributions::Normal(mean, std_dev)) => Status::NeedsRealDraw {
                    mean,
                    std_dev,
                },
                Some(_) => Status::Running,
                None => Status::Unroutable { from, to },
            }
        } else if self.steps() == usize::MAX {
            Status::StepLimit
        } else if self.next_event() is None {
            Status::Deadlock
        } else {
            Status::Running
        }
    }

    /// One step of the run. Messages that still wait for a latency get
    /// theirs first. Then, unless one of them stopped that, or the steps
    /// cannot be counted further, or no event is left, the clock moves to
    /// the event that is due first, the event happens, and the messages
    /// that it brought get their latencies.
    pub fn step(&mut self) -> (status: Status)
        requires
            old(self).wf(),
        ensures
            final(self).wf(),
            final(self).same_frame(old(self)),
            old(self).time().0 <= final(self).time().0,
            final(self).steps() == old(self).steps() || final(self).steps() == old(self).steps()
                + 1,
            final(self).steps() == old(self).steps() ==> final(self).settled_from(old(self))
                && status == final(self).verdict() && !(status is Running),
            final(self).steps() == old(self).steps() + 1
                ==> status == (if final(self).undrawn().len() == 0 {
                Status::Running
            } else {
                final(self).verdict()
            }) && exists|ready: Self|
                #[trigger] ready.settled_from(old(self)) && ready.undrawn().len() == 0
                    && final(self).follows_step(&ready),
            old(self).undrawn().len() == 0 && old(self).steps() < usize::MAX
                && old(self).next_event() is Some ==> final(self).follows_step(old(self))
                && final(self).steps() == old(self).steps() + 1,
            old(self).undrawn().len() == 0 && final(self).steps() == old(self).steps()
                ==> *final(self) == *old(self),
            !(status is BudgetReached),
            status is Running ==> final(self).undrawn().len() == 0,
            status is NeedsRealDraw || status is Unroutable ==> final(self).halted_by(status),
    {
        let settled = self.settle();
        let ghost ready = *self;
        match settled {
            Status::Running => {
                if self.steps == usize::MAX {
                    Status::StepLimit
                } else {
                    if self.advance() {
                        let ghost after_event = *self;
                        let status = self.settle();
                        proof {
                            reveal(Simulation::follows_step);
                            assert(after_event.follows_event(&ready));
                            assert(self.follows_step(&ready));
                        }
                        status
                    } else {
                        Status::Deadlock
                    }
                }
            },
            _ => settled,
        }
    }

    /// Whether two states are states of one run: the budget, the number of
    /// processes and the topology are the same.
    pub open spec fn same_run(&self, other: &Self) -> bool {
        &&& self.budget() == other.budget()
        &&& self.ranks() == other.ranks()
        &&& self.topology() == other.topology()
    }

    /// Whether `self` is `before` after the process with rank `rank` has
    /// started: it started in the surroundings of `before`, shown the
    /// present instant and its own rank, and what it left there was taken
    /// over. No other process was touched, and neither the clock nor the
    /// network moved.
    pub open spec fn process_started(&self, before: &Self, rank: Rank) -> bool {
        &&& self.same_run(before)
        &&& self.time() == before.time()
        &&& self.events() == before.events()
        &&& self.steps() == before.steps()
        &&& self.nic() == before.nic()
        &&& self.same_processes_but(before, rank)
        &&& exists|left: Context<M>|
            #[trigger] self.took(&left, rank, before.time(), before, before.pending_timers())
                && before.process(rank).started(
                &self.process(rank),
                &before.context().shown(before.time(), rank),
                &left,
            )
    }

    /// Whether `self` is `before` after the processes with the ranks one
    /// to `upto` have started, one after the other in the order of their
    /// ranks, each once.
    pub open spec fn started_through(&self, before: &Self, upto: nat) -> bool
        decreases upto,
    {
        if upto == 0 {
            &&& self.same_run(before)
            &&& self.time() == before.time()
            &&& self.events() == before.events()
            &&& self.steps() == before.steps()
            &&& self.nic() == before.nic()
            &&& self.undrawn() == before.undrawn()
            &&& self.pending_timers() == before.pending_timers()
            &&& self.same_processes(before)
            &&& self.context() == before.context()
        } else {
            exists|middle: Self|
                middle.started_through(before, (upto - 1) as nat)
                    && #[trigger] self.process_started(&middle, upto as Rank)
        }
    }

    /// Once the processes up to a rank have started and the next one
    /// starts, the processes up to that one have started.
    pub proof fn lemma_started_next(&self, before: &Self, middle: &Self, rank: Rank)
        requires
            rank >= 1,
            middle.started_through(before, (rank - 1) as nat),
            self.process_started(middle, rank),
        ensures
            self.started_through(before, rank as nat),
    {
        let upto = rank as nat;
        assert(middle.started_through(before, (upto - 1) as nat));
        assert(self.process_started(middle, upto as Rank));
    }

    /// Whether `self` is `before` after its start: every process has
    /// started, in the order of the ranks; a run that had started is as it
    /// was.
    pub open spec fn begun_from(&self, before: &Self) -> bool {
        if before.started() {
            *self == *before
        } else {
            self.started() && self.started_through(before, before.ranks())
        }
    }

    /// Lets every process start, in the order of the ranks, and takes what
    /// each asks for. A run that has started is left as it is.
    pub fn start(&mut self)
        requires
            old(self).wf(),
        ensures
            final(self).wf(),
            final(self).started(),
            final(self).begun_from(old(self)),
            final(self).budget() == old(self).budget(),
            final(self).ranks() == old(self).ranks(),
            final(self).topology() == old(self).topology(),
            final(self).time() == old(self).time(),
            final(self).events() == old(self).events(),
            final(self).steps() == old(self).steps(),
            final(self).nic() == old(self).nic(),
    {
        if self.started {
            return ;
        }
        self.started = true;
        let n = self.nursery.size();
        let present = crate::clock::now(&self.clock);
        let mut rank: usize = 0;
        while rank < n
            invariant
                rank <= n,
                n == self.ranks(),
                present == self.time(),
                self.wf(),
                self.started(),
                self.same_run(old(self)),
                self.time() == old(self).time(),
                self.events() == old(self).events(),
                self.steps() == old(self).steps(),
                self.nic() == old(self).nic(),
                self.started_through(old(self), rank as nat),
            decreases n - rank,
        {
            rank = rank + 1;
            let ghost middle = *self;
            self.ctx.set_now(present);
            self.nursery.start_single(&mut self.ctx, rank);
            let ghost left = self.ctx;
            self.absorb(rank);
            proof {
                assert(self.took(&left, rank, middle.time(), &middle, middle.pending_timers()));
                assert(self.process_started(&middle, rank));
                Self::lemma_started_next(self, old(self), &middle, rank);
            }
        }
    }

    /// What a run that stands as `self` and is asked to go on says: that
    /// the clock has reached the time budget, or what `verdict` says.
    pub open spec fn outcome(&self) -> Status {
        if self.undrawn().len() == 0 && self.budget().0 <= self.time().0 {
            Status::BudgetReached
        } else {
            self.verdict()
        }
    }

    /// Whether `self` is `before` after a run through the states of
    /// `trace`: the first is the state after the start, with the messages
    /// of the start in flight; each of the others follows the one before
    /// it by one step, taken while the clock was before the time budget;
    /// the last is `self`.
    pub open spec fn ran(&self, before: &Self, trace: Seq<Self>) -> bool {
        &&& trace.len() >= 1
        &&& trace.last() == *self
        &&& forall|i: int| 0 <= i < trace.len() ==> (#[trigger] trace[i]).wf()
        &&& exists|begun: Self|
            #[trigger] begun.begun_from(before) && trace[0].settled_from(&begun)
        &&& forall|i: int|
            0 <= i < trace.len() - 1 ==> (#[trigger] trace[i]).undrawn().len() == 0
                && trace[i].time().0 < before.budget().0 && trace[i + 1].follows_step(&trace[i])
    }

    /// The start moves neither the clock nor the network, and counts
    /// neither a step nor an event.
    pub proof fn lemma_start_keeps(&self, before: &Self, upto: nat)
        requires
            self.started_through(before, upto),
        ensures
            self.same_run(before),
            self.time() == before.time(),
            self.events() == before.events(),
            self.steps() == before.steps(),
            self.nic() == before.nic(),
        decreases upto,
    {
        if upto > 0 {
            let middle = choose|middle: Self|
                middle.started_through(before, (upto - 1) as nat)
                    && #[trigger] self.process_started(&middle, upto as Rank);
            middle.lemma_start_keeps(before, (upto - 1) as nat);
        }
    }

    /// Every state of a run but the first has cost one step: the steps
    /// counted in the `i`-th state of the trace are those counted before
    /// the run, and `i` more. The clock never moves back along the trace.
    pub proof fn lemma_trace_counts_steps(&self, before: &Self, trace: Seq<Self>, i: int)
        requires
            self.ran(before, trace),
            0 <= i < trace.len(),
        ensures
            trace[i].steps() == before.steps() + i,
            before.time().0 <= trace[i].time().0,
            trace[i].same_run(before),
        decreases i,
    {
        reveal(Simulation::settled_from);
        if i == 0 {
            let begun = choose|begun: Self|
                #[trigger] begun.begun_from(before) && trace[0].settled_from(&begun);
            if !before.started() {
                begun.lemma_start_keeps(before, before.ranks());
            }
        } else {
            self.lemma_trace_counts_steps(before, trace, i - 1);
            reveal(Simulation::follows_step);
            assert(trace[i - 1 + 1].follows_step(&trace[i - 1]));
            let middle = choose|middle: Self|
                #[trigger] middle.follows_event(&trace[i - 1]) && trace[i].settled_from(&middle);
            trace[i - 1].lemma_wf();
        }
    }

    /// Runs until the clock has reached the time budget, no event is left,
    /// or a message needs what this library cannot give it. The processes
    /// are started first if they have not been.
    pub fn run(&mut self) -> (status: Status)
        requires
            old(self).wf(),
        ensures
            final(self).wf(),
            final(self).started(),
            final(self).same_run(old(self)),
            exists|trace: Seq<Self>| #[trigger] final(self).ran(old(self), trace),
            status == final(self).outcome(),
            !(status is Running),
            old(self).time().0 <= final(self).time().0,
            status is NeedsRealDraw || status is Unroutable ==> final(self).halted_by(status),
            old(self).budget().0 <= old(self).time().0 ==> final(self).time() == old(self).time()
                && final(self).events() == old(self).events()
                    && final(self).steps() == old(self).steps(),
            old(self).started() && old(self).undrawn().len() == 0 && old(self).next_event() is None
                ==> *final(self) == *old(self),
    {
        self.start();
        let ghost begun = *self;
        let mut status = self.settle();
        let ghost mut trace: Seq<Self> = seq![*self];
        loop
            invariant
                self.wf(),
                self.started(),
                self.same_run(old(self)),
                old(self).time().0 <= self.time().0,
                trace.len() >= 1,
                trace.last() == *self,
                forall|i: int| 0 <= i < trace.len() ==> (#[trigger] trace[i]).wf(),
                begun.begun_from(old(self)),
                trace[0].settled_from(&begun),
                forall|i: int|
                    0 <= i < trace.len() - 1 ==> (#[trigger] trace[i]).undrawn().len() == 0
                        && trace[i].time().0 < old(self).budget().0 && trace[i + 1].follows_step(
                        &trace[i],
                    ),
                status == (if self.undrawn().len() == 0 {
                    Status::Running
                } else {
                    self.verdict()
                }),
                status is Running || status is NeedsRealDraw || status is Unroutable,
                status is Running <==> self.undrawn().len() == 0,
                self.halted_by(status),
                old(self).budget().0 <= old(self).time().0 ==> self.time() == old(self).time()
                    && self.events() == old(self).events() && self.steps() == old(self).steps(),
                old(self).started() && old(self).undrawn().len() == 0 && old(self).next_event()
                    is None ==> *self == *old(self),
            decreases usize::MAX - self.steps(),
        {
            assert(self.ran(old(self), trace));
            match status {
                Status::Running => {},
                _ => {
                    return status;
                },
            }
            if crate::clock::now(&self.clock).0 >= self.time_budget.0 {
                return Status::BudgetReached;
            }
            if self.steps == usize::MAX {
                return Status::StepLimit;
            }
            match self.peek_closest() {
                None => {
                    return Status::Deadlock;
                },
                Some(_) => {},
            }
            let ghost before_step = *self;
            status = self.step();
            proof {
                let longer = trace.push(*self);
                let budget = old(self).budget().0;
                assert forall|i: int| 0 <= i < longer.len() - 1 implies (
                #[trigger] longer[i]).undrawn().len() == 0 && longer[i].time().0 < budget
                    && longer[i + 1].follows_step(&longer[i]) by {
                    if i < trace.len() - 1 {
                        assert(longer[i] == trace[i]);
                        assert(longer[i + 1] == trace[i + 1]);
                    } else {
                        assert(longer[i] == before_step);
                    }
                }
                assert(longer[0] == trace[0]);
                assert forall|i: int| 0 <= i < longer.len() implies (#[trigger] longer[i]).wf() by {
                    if i < trace.len() {
                        assert(longer[i] == trace[i]);
                    }
                }
                trace = longer;
            }
        }
    }

    /// The shared store, to write to.
    pub fn kv_mut(&mut self) -> (kv: &mut Kv)
        ensures
            kv@ == old(self).store(),
            final(self).store() == final(kv)@,
            final(self).wf() == old(self).wf(),
            final(self).same_frame(old(self)),
            final(self).time() == old(self).time(),
            final(self).events() == old(self).events(),
            final(self).steps() == old(self).steps(),
            final(self).nic() == old(self).nic(),
            final(self).undrawn() == old(self).undrawn(),
            final(self).pending_timers() == old(self).pending_timers(),
    {
        self.ctx.kv_mut()
    }

    /// The generator that the latencies are drawn from, as it stands.
    pub closed spec fn randomness(&self) -> Randomizer {
        self.network.randomness()
    }

    /// The generator that the latencies are drawn from, for draws that
    /// this library cannot make. What is drawn from it moves the stream of
    /// the latencies on and changes nothing else of the run.
    pub fn randomizer(&mut self) -> (randomizer: &mut Randomizer)
        ensures
            *randomizer == old(self).randomness(),
            final(self).randomness() == *final(randomizer),
            final(self).staged() == old(self).staged(),
            final(self).staged_timers() == old(self).staged_timers(),
            final(self).ids_issued() == old(self).ids_issued(),
            old(self).wf() ==> final(self).wf(),
            final(self).same_frame(old(self)),
            final(self).time() == old(self).time(),
            final(self).events() == old(self).events(),
            final(self).steps() == old(self).steps(),
            final(self).nic() == old(self).nic(),
            final(self).undrawn() == old(self).undrawn(),
            final(self).pending_timers() == old(self).pending_timers(),
            final(self).store() == old(self).store(),
    {
        self.network.randomizer()
    }

    /// Ends the run and leaves an empty one: the clock at zero, no
    /// identifier handed out, the store empty, no process, nothing waiting.
    pub fn teardown(&mut self)
        ensures
            final(self).wf(),
            final(self).time() == Jiffies(0),
            final(self).ids_issued() == 0,
            final(self).store() == Map::<Seq<char>, Value>::empty(),
            final(self).ranks() == 0,
            !final(self).started(),
            final(self).events() == 0,
            final(self).steps() == 0,
            final(self).budget() == old(self).budget(),
            final(self).undrawn() == Seq::<RoutedMessage<M>>::empty(),
            final(self).pending_timers() == Seq::<PendingTimer>::empty(),
            final(self).nic().in_flight == Seq::<Scheduled<M>>::empty(),
            final(self).nic().released == Seq::<Scheduled<M>>::empty(),
            final(self).staged() == Seq::<Outgoing<M>>::empty(),
            final(self).staged_timers() == Seq::<(TimerId, Jiffies)>::empty(),
    {
        let seed = self.network.seed();
        let shared = Rc::new(Topology::new(0));
        self.network = Network::new(seed, BandwidthType::Unbounded, Rc::clone(&shared));
        self.ctx = Context::new(shared, seed);
        self.nursery = Nursery::new(Vec::new());
        self.timers = TimerManager::new();
        crate::clock::drop_clock(&mut self.clock);
        self.started = false;
        self.steps = 0;
        self.metrics = Metrics::new();
    }

    /// How many identifiers have been handed out.
    pub open spec fn ids_issued(&self) -> nat {
        self.context().ids_issued()
    }
}

} // verus!
