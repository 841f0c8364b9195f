//! Putting a run together.

use vstd::prelude::*;

use crate::bandwidth::BandwidthType;
use crate::jiffies::Jiffies;
use crate::process::ProcessHandle;
use crate::random::Distributions;
use crate::random::Seed;
use crate::simulation::Simulation;
use crate::topology::find_pool;
use crate::topology::LatencyDescription;
use crate::topology::Pool;
use crate::topology::PoolLookup;
use crate::topology::Rank;
use crate::topology::Topology;
use crate::topology::TopologyError;
use crate::topology::GLOBAL_POOL;

verus! {

/// Why a run could not be put together.
#[derive(Clone, Copy, Debug, PartialEq, Eq, Structural)]
pub enum BuildError {
    /// The bandwidth is bounded by zero bytes per jiffy.
    ZeroBandwidth,
    /// There are more processes than ranks.
    TooManyProcesses,
    /// The seed is so large that the seed of some process cannot be held.
    SeedTooLarge,
    /// A latency description names a pool that was never added.
    UnknownPool,
    /// The parameters of a distribution describe no distribution.
    InvalidDistribution,
}

/// The seed of a run whose builder was given none.
pub const DEFAULT_SEED: Seed = 69;

/// The time budget of a run whose builder was given none.
pub const DEFAULT_TIME_BUDGET: usize = 1_000_000;

/// The ranks from `first` on, `count` of them.
pub open spec fn rank_range(first: Rank, count: nat) -> Seq<Rank> {
    Seq::new(count, |i: int| (first + i) as usize)
}

/// The first reason for which a topology with the pools `pools` turns one
/// of `descriptions` down, if it turns any down.
pub open spec fn first_refusal(pools: PoolLookup, descriptions: Seq<LatencyDescription>) -> Option<
    TopologyError,
>
    decreases descriptions.len(),
{
    if descriptions.len() == 0 {
        None
    } else {
        match first_refusal(pools, descriptions.drop_last()) {
            Some(e) => Some(e),
            None => match descriptions.last().verdict(pools) {
                Err(e) => Some(e),
                Ok(_) => None,
            },
        }
    }
}

/// The distribution that `descriptions` give the link from `from` to `to`:
/// that of the last description that covers the link.
pub open spec fn link_of(
    pools: PoolLookup,
    descriptions: Seq<LatencyDescription>,
    from: Rank,
    to: Rank,
) -> Option<Distributions>
    decreases descriptions.len(),
{
    if descriptions.len() == 0 {
        None
    } else if descriptions.last().covers(pools, from, to) {
        Some(descriptions.last().distribution())
    } else {
        link_of(pools, descriptions.drop_last(), from, to)
    }
}

/// The answer of the builder to a description that the topology turned
/// down.
pub open spec fn build_error(e: TopologyError) -> BuildError {
    match e {
        TopologyError::UnknownPool => BuildError::UnknownPool,
        TopologyError::InvalidDistribution => BuildError::InvalidDistribution,
    }
}

/// Collects what a run is made of. The processes get their ranks in the
/// order in which their pools are added, starting at one.
pub struct SimulationBuilder<P> {
    seed: Seed,
    time_budget: Jiffies,
    bandwidth: BandwidthType,
    descriptions: Vec<LatencyDescription>,
    pools: Vec<Pool>,
    procs: Vec<P>,
}

impl<P> SimulationBuilder<P> {
    /// The seed of the run.
    pub closed spec fn seed_value(&self) -> Seed {
        self.seed
    }

    /// The instant at which the run ends.
    pub closed spec fn budget(&self) -> Jiffies {
        self.time_budget
    }

    /// The bandwidth of every network interface.
    pub closed spec fn bandwidth(&self) -> BandwidthType {
        self.bandwidth
    }

    /// The latency descriptions in the order in which they were given.
    pub closed spec fn descriptions(&self) -> Seq<LatencyDescription> {
        self.descriptions@
    }

    /// The pools in the order in which they were added.
    pub closed spec fn pools(&self) -> Seq<Pool> {
        self.pools@
    }

    /// The number of processes added so far.
    pub closed spec fn process_count(&self) -> nat {
        self.procs@.len()
    }

    /// The pools that the run will have: the pool of all processes, and
    /// behind it the pools that were added.
    pub open spec fn lookup(&self) -> PoolLookup {
        |name: Seq<char>|
            match find_pool(self.pools(), name) {
                Some(members) => Some(members),
                None => if name == GLOBAL_POOL@ {
                    Some(rank_range(1, self.process_count()))
                } else {
                    None
                },
            }
    }

    /// Every member of every pool is one of the processes.
    pub closed spec fn wf(&self) -> bool {
        crate::topology::members_in_range(self.pools@, self.procs@.len() as usize)
    }

    /// A builder with no process, no latency description, unbounded
    /// bandwidth, the default seed and the default time budget.
    pub fn new() -> (builder: Self)
        ensures
            builder.wf(),
            builder.seed_value() == DEFAULT_SEED,
            builder.budget() == Jiffies(DEFAULT_TIME_BUDGET),
            builder.bandwidth() == BandwidthType::Unbounded,
            builder.descriptions() == Seq::<LatencyDescription>::empty(),
            builder.pools() == Seq::<Pool>::empty(),
            builder.process_count() == 0,
    {
        SimulationBuilder {
            seed: DEFAULT_SEED,
            time_budget: Jiffies(DEFAULT_TIME_BUDGET),
            bandwidth: BandwidthType::Unbounded,
            descriptions: Vec::new(),
            pools: Vec::new(),
            procs: Vec::new(),
        }
    }

    /// Sets the seed.
    pub fn seed(self, seed: Seed) -> (builder: Self)
        ensures
            builder.wf() == self.wf(),
            builder.seed_value() == seed,
            builder.budget() == self.budget(),
            builder.bandwidth() == self.bandwidth(),
            builder.descriptions() == self.descriptions(),
            builder.pools() == self.pools(),
            builder.process_count() == self.process_count(),
    {
        let mut builder = self;
        builder.seed = seed;
        builder
    }

    /// Sets the instant at which the run ends.
    pub fn time_budget(self, time_budget: Jiffies) -> (builder: Self)
        ensures
            builder.wf() == self.wf(),
            builder.seed_value() == self.seed_value(),
            builder.budget() == time_budget,
            builder.bandwidth() == self.bandwidth(),
            builder.descriptions() == self.descriptions(),
            builder.pools() == self.pools(),
            builder.process_count() == self.process_count(),
    {
        let mut builder = self;
        builder.time_budget = time_budget;
        builder
    }

    /// Sets the bandwidth of every network interface.
    pub fn nic_bandwidth(self, bandwidth: BandwidthType) -> (builder: Self)
        ensures
            builder.wf() == self.wf(),
            builder.seed_value() == self.seed_value(),
            builder.budget() == self.budget(),
            builder.bandwidth() == bandwidth,
            builder.descriptions() == self.descriptions(),
            builder.pools() == self.pools(),
            builder.process_count() == self.process_count(),
    {
        let mut builder = self;
        builder.bandwidth = bandwidth;
        builder
    }

    /// Adds latency descriptions behind those given before. Where two
    /// descriptions cover a link, the later one counts.
    pub fn latency_topology(self, descriptions: &[LatencyDescription]) -> (builder: Self)
        ensures
            builder.wf() == self.wf(),
            builder.seed_value() == self.seed_value(),
            builder.budget() == self.budget(),
            builder.bandwidth() == self.bandwidth(),
            builder.descriptions() == self.descriptions() + descriptions@,
            builder.pools() == self.pools(),
            builder.process_count() == self.process_count(),
    {
        let mut builder = self;
        let n = descriptions.len();
        let mut i: usize = 0;
        assert(builder.descriptions@ =~= self.descriptions@ + descriptions@.take(0));
        while i < n
            invariant
                i <= n,
                n == descriptions@.len(),
                builder.wf() == self.wf(),
                builder.seed == self.seed,
                builder.time_budget == self.time_budget,
                builder.bandwidth == self.bandwidth,
                builder.pools@ == self.pools@,
                builder.procs@ == self.procs@,
                builder.descriptions@ == self.descriptions@ + descriptions@.take(i as int),
            decreases n - i,
        {
            builder.descriptions.push(descriptions[i]);
            i = i + 1;
            assert(builder.descriptions@ =~= self.descriptions@ + descriptions@.take(i as int));
        }
        assert(descriptions@.take(n as int) =~= descriptions@);
        builder
    }

    /// Adds the processes of `procs` as a pool called `name`. They get the
    /// ranks that follow those of the processes added before, in their
    /// order.
    pub fn add_pool_with(self, name: &str, procs: Vec<P>) -> (builder: Self)
        requires
            self.wf(),
        ensures
            builder.wf(),
            builder.seed_value() == self.seed_value(),
            builder.budget() == self.budget(),
            builder.bandwidth() == self.bandwidth(),
            builder.descriptions() == self.descriptions(),
            builder.process_count() == self.process_count() + procs@.len(),
            builder.pools().len() == self.pools().len() + 1,
            builder.pools().drop_last() == self.pools(),
            builder.pools().last().name@ == name@,
            builder.pools().last().members@ == rank_range(
                (self.process_count() + 1) as usize,
                procs@.len(),
            ),
    {
        let mut builder = self;
        let mut incoming = procs;
        let mut reversed: Vec<P> = Vec::new();
        while incoming.len() > 0
            invariant
                reversed@.len() + incoming@.len() == procs@.len(),
            decreases incoming@.len(),
        {
            match incoming.pop() {
                None => {},
                Some(p) => {
                    reversed.push(p);
                },
            }
        }
        let mut members: Vec<Rank> = Vec::new();
        let ghost first = self.procs@.len();
        while reversed.len() > 0
            invariant
                builder.seed == self.seed,
                builder.time_budget == self.time_budget,
                builder.bandwidth == self.bandwidth,
                builder.descriptions@ == self.descriptions@,
                builder.pools@ == self.pools@,
                first == self.procs@.len(),
                builder.procs@.len() == first + members@.len(),
                members@.len() + reversed@.len() == procs@.len(),
                forall|k: int| 0 <= k < members@.len() ==> members@[k] == first + 1 + k,
            decreases reversed@.len(),
        {
            match reversed.pop() {
                None => {},
                Some(p) => {
                    builder.procs.push(p);
                    members.push(builder.procs.len());
                },
            }
        }
        assert(members@ =~= rank_range((first + 1) as usize, procs@.len()));
        let ghost before = builder.pools@;
        let ghost listed = members@;
        let total = builder.procs.len();
        builder.pools.push(Pool { name: name.to_owned(), members });
        proof {
            assert(builder.pools@.drop_last() =~= before);
            assert forall|p: int, i: int|
                0 <= p < builder.pools@.len() && 0 <= i
                    < builder.pools@[p].members@.len() implies 1 <= (
            #[trigger] builder.pools@[p].members@[i]) <= total by {
                if p < before.len() {
                    assert(builder.pools@[p] == self.pools@[p]);
                    assert(1 <= self.pools@[p].members@[i] <= self.procs@.len() as usize);
                } else {
                    assert(builder.pools@[p].members@ == listed);
                }
            }
        }
        builder
    }

    /// Adds `count` processes, each in its default state, as a pool called
    /// `name`. They get the ranks that follow those of the processes added
    /// before.
    pub fn add_pool(self, name: &str, count: usize) -> (builder: Self) where P: Default
        requires
            self.wf(),
        ensures
            builder.wf(),
            builder.seed_value() == self.seed_value(),
            builder.budget() == self.budget(),
            builder.bandwidth() == self.bandwidth(),
            builder.descriptions() == self.descriptions(),
            builder.process_count() == self.process_count() + count,
            builder.pools().len() == self.pools().len() + 1,
            builder.pools().drop_last() == self.pools(),
            builder.pools().last().name@ == name@,
            builder.pools().last().members@ == rank_range(
                (self.process_count() + 1) as usize,
                count as nat,
            ),
    {
        let mut procs: Vec<P> = Vec::new();
        let mut i: usize = 0;
        while i < count
            invariant
                i <= count,
                procs@.len() == i,
            decreases count - i,
        {
            procs.push(P::default());
            i = i + 1;
        }
        self.add_pool_with(name, procs)
    }

    /// Why `build` fails, if it does.
    pub open spec fn refusal(&self) -> Option<BuildError> {
        if self.bandwidth() == BandwidthType::Bounded(0) {
            Some(BuildError::ZeroBandwidth)
        } else if self.process_count() >= usize::MAX {
            Some(BuildError::TooManyProcesses)
        } else if self.seed_value() + self.process_count() > u64::MAX {
            Some(BuildError::SeedTooLarge)
        } else {
            match first_refusal(self.lookup(), self.descriptions()) {
                Some(e) => Some(build_error(e)),
                None => None,
            }
        }
    }

    /// Puts the run together: the processes with their ranks, the pool of
    /// all processes and the pools that were added, and the links that the
    /// latency descriptions cover. The run has not started.
    pub fn build<M>(self) -> (built: Result<Simulation<M, P>, BuildError>) where P: ProcessHandle<M>
        requires
            self.wf(),
        ensures
            built matches Err(e) ==> self.refusal() == Some(e),
            built matches Ok(simulation) ==> {
                &&& self.refusal() is None
                &&& simulation.wf()
                &&& simulation.time() == Jiffies(0)
                &&& simulation.budget() == self.budget()
                &&& simulation.ranks() == self.process_count()
                &&& !simulation.started()
                &&& simulation.events() == 0
                &&& simulation.ids_issued() == 0
                &&& simulation.store() == crate::configuration::configured(
                    Map::<Seq<char>, crate::kv::Value>::empty(),
                    self.process_count() as usize,
                    self.seed_value(),
                )
                &&& simulation.undrawn().len() == 0
                &&& simulation.pending_timers().len() == 0
                &&& simulation.nic().bandwidth == self.bandwidth()
                &&& simulation.nic().in_flight.len() == 0
                &&& simulation.nic().released.len() == 0
                &&& forall|name: Seq<char>|
                    #[trigger] simulation.topology().pool(name) == (self.lookup())(name)
                &&& forall|from: Rank, to: Rank|
                    #[trigger] simulation.topology().distribution(from, to) == link_of(
                        self.lookup(),
                        self.descriptions(),
                        from,
                        to,
                    )
            },
    {
        match self.bandwidth {
            BandwidthType::Bounded(rate) => {
                if rate == 0 {
                    return Err(BuildError::ZeroBandwidth);
                }
            },
            BandwidthType::Unbounded => {},
        }
        let n = self.procs.len();
        if n == usize::MAX {
            return Err(BuildError::TooManyProcesses);
        }
        if n as u64 > u64::MAX - self.seed {
            return Err(BuildError::SeedTooLarge);
        }
        let ghost lookup = self.lookup();
        let mut topology = Topology::new(n);
        let mut everyone: Vec<Rank> = Vec::new();
        let mut rank: usize = 0;
        while rank < n
            invariant
                rank <= n,
                everyone@.len() == rank,
                forall|k: int| 0 <= k < rank ==> everyone@[k] == k + 1,
            decreases n - rank,
        {
            rank = rank + 1;
            everyone.push(rank);
        }
        assert(everyone@ =~= rank_range(1, n as nat));
        topology.add_pool(GLOBAL_POOL, everyone);
        let mut k: usize = 0;
        assert(self.pools@.take(0) =~= Seq::<Pool>::empty());
        while k < self.pools.len()
            invariant
                k <= self.pools@.len(),
                self.wf(),
                n == self.procs@.len(),
                topology.size() == n,
                forall|from: Rank, to: Rank| topology.distribution(from, to) is None,
                forall|name: Seq<char>| #[trigger]
                    topology.pool(name) == match find_pool(self.pools@.take(k as int), name) {
                        Some(members) => Some(members),
                        None => if name == GLOBAL_POOL@ {
                            Some(rank_range(1, n as nat))
                        } else {
                            None
                        },
                    },
            decreases self.pools@.len() - k,
        {
            let source = &self.pools[k].members;
            let mut members: Vec<Rank> = Vec::new();
            let mut i: usize = 0;
            while i < source.len()
                invariant
                    i <= source@.len(),
                    members@ == source@.take(i as int),
                decreases source@.len() - i,
            {
                members.push(source[i]);
                i = i + 1;
                assert(members@ =~= source@.take(i as int));
            }
            proof {
                assert(source@.take(source@.len() as int) =~= source@);
                assert forall|i: int| 0 <= i < members@.len() implies 1 <= #[trigger] members@[i]
                    <= topology.size() by {
                    assert(1 <= self.pools@[k as int].members@[i] <= self.procs@.len() as usize);
                }
                let upto = self.pools@.take(k as int + 1);
                assert(upto.last() == self.pools@[k as int]);
                assert(upto.drop_last() =~= self.pools@.take(k as int));
            }
            topology.add_pool(self.pools[k].name.as_str(), members);
            k = k + 1;
        }
        proof {
            assert(self.pools@.take(self.pools@.len() as int) =~= self.pools@);
            assert forall|name: Seq<char>| #[trigger] topology.pool(name) == lookup(name) by {}
        }
        let mut d: usize = 0;
        assert(self.descriptions@.take(0) =~= Seq::<LatencyDescription>::empty());
        while d < self.descriptions.len()
            invariant
                d <= self.descriptions@.len(),
                n == self.procs@.len(),
                topology.size() == n,
                lookup == self.lookup(),
                self.bandwidth() != BandwidthType::Bounded(0),
                n < usize::MAX,
                self.seed_value() + n <= u64::MAX,
                forall|name: Seq<char>| #[trigger] topology.pool(name) == lookup(name),
                first_refusal(lookup, self.descriptions@.take(d as int)) is None,
                forall|from: Rank, to: Rank|
                    #[trigger] topology.distribution(from, to) == link_of(
                        lookup,
                        self.descriptions@.take(d as int),
                        from,
                        to,
                    ),
            decreases self.descriptions@.len() - d,
        {
            let description = self.descriptions[d];
            let ghost before = topology;
            proof {
                let upto = self.descriptions@.take(d as int + 1);
                assert(upto.last() == description);
                assert(upto.drop_last() =~= self.descriptions@.take(d as int));
                lemma_same_pools(description, before.pools(), lookup);
            }
            match topology.configure(&description) {
                Err(e) => {
                    proof {
                        lemma_refusal_persists(lookup, self.descriptions@, d as int + 1);
                    }
                    return Err(
                        match e {
                            TopologyError::UnknownPool => BuildError::UnknownPool,
                            TopologyError::InvalidDistribution => BuildError::InvalidDistribution,
                        },
                    );
                },
                Ok(_) => {
                    proof {
                        assert forall|from: Rank, to: Rank|
                            #[trigger] topology.distribution(from, to) == link_of(
                                lookup,
                                self.descriptions@.take(d as int + 1),
                                from,
                                to,
                            ) by {
                            lemma_same_cover(description, before.pools(), lookup, from, to);
                            assert(before.distribution(from, to) == link_of(
                                lookup,
                                self.descriptions@.take(d as int),
                                from,
                                to,
                            ));
                        }
                    }
                },
            }
            d = d + 1;
        }
        assert(self.descriptions@.take(self.descriptions@.len() as int) =~= self.descriptions@);
        Ok(Simulation::new(self.seed, self.time_budget, self.bandwidth, topology, self.procs))
    }
}

/// Two lookups that find the same pools give a description the same
/// verdict.
pub proof fn lemma_same_pools(
    description: LatencyDescription,
    first: PoolLookup,
    second: PoolLookup,
)
    requires
        forall|name: Seq<char>| #[trigger] first(name) == second(name),
    ensures
        description.verdict(first) == description.verdict(second),
{
}

/// Two lookups that find the same pools let a description cover the same
/// links.
pub proof fn lemma_same_cover(
    description: LatencyDescription,
    first: PoolLookup,
    second: PoolLookup,
    from: Rank,
    to: Rank,
)
    requires
        forall|name: Seq<char>| #[trigger] first(name) == second(name),
    ensures
        description.covers(first, from, to) == description.covers(second, from, to),
{
}

/// A description that is turned down keeps the descriptions behind it from
/// being looked at.
pub proof fn lemma_refusal_persists(
    pools: PoolLookup,
    descriptions: Seq<LatencyDescription>,
    upto: int,
)
    requires
        0 <= upto <= descriptions.len(),
        first_refusal(pools, descriptions.take(upto)) is Some,
    ensures
        first_refusal(pools, descriptions) == first_refusal(pools, descriptions.take(upto)),
    decreases descriptions.len() - upto,
{
    if upto == descriptions.len() {
        assert(descriptions.take(upto) =~= descriptions);
    } else {
        let next = descriptions.take(upto + 1);
        assert(next.drop_last() =~= descriptions.take(upto));
        lemma_refusal_persists(pools, descriptions, upto + 1);
    }
}

} // verus!
