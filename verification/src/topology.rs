//! Named pools of processes and the latency distribution of every link.

use vstd::prelude::*;

use crate::random::Distributions;

verus! {

/// The number that identifies a process within a run. Ranks start at one.
pub type Rank = usize;

/// The pool that holds every process of a run. Broadcasts go to it.
pub const GLOBAL_POOL: &'static str = "global_pool";

/// How long messages take between the members of pools.
#[derive(Clone, Copy, Debug)]
pub enum LatencyDescription {
    /// The latency between any two members of one pool, a member and itself
    /// included.
    WithinPool(&'static str, Distributions),
    /// The latency between a member of the first pool and a member of the
    /// second, in both directions.
    BetweenPools(&'static str, &'static str, Distributions),
}

/// Why a latency description was turned down.
#[derive(Clone, Copy, Debug, PartialEq, Eq, Structural)]
pub enum TopologyError {
    /// The description names a pool that was never added.
    UnknownPool,
    /// The parameters of the distribution describe no distribution.
    InvalidDistribution,
}

/// A named list of ranks.
pub struct Pool {
    pub name: String,
    pub members: Vec<Rank>,
}

/// The members of the pool added last under `name`, if there is one.
pub open spec fn find_pool(pools: Seq<Pool>, name: Seq<char>) -> Option<Seq<Rank>>
    decreases pools.len(),
{
    if pools.len() == 0 {
        None
    } else if pools.last().name@ == name {
        Some(pools.last().members@)
    } else {
        find_pool(pools.drop_last(), name)
    }
}

/// Whether `table` is a square of `side` rows and `side` columns.
pub open spec fn is_square(table: Seq<Vec<Option<Distributions>>>, side: nat) -> bool {
    &&& table.len() == side
    &&& forall|a: int| 0 <= a < side ==> (#[trigger] table[a])@.len() == side
}

/// The entry of `table` in row `a` and column `b`.
pub open spec fn cell(table: Seq<Vec<Option<Distributions>>>, a: usize, b: usize) -> Option<
    Distributions,
> {
    table[a as int]@[b as int]
}

/// Gives every link from a rank of `sources` to a rank of `targets` the
/// distribution `d`, and leaves every other link as it was.
fn connect(
    table: &mut Vec<Vec<Option<Distributions>>>,
    sources: &Vec<Rank>,
    targets: &Vec<Rank>,
    d: Distributions,
)
    requires
        is_square(old(table)@, old(table)@.len()),
        forall|i: int| 0 <= i < sources@.len() ==> sources@[i] < old(table)@.len(),
        forall|j: int| 0 <= j < targets@.len() ==> targets@[j] < old(table)@.len(),
    ensures
        is_square(final(table)@, old(table)@.len()),
        forall|a: usize, b: usize|
            a < old(table)@.len() && b < old(table)@.len() ==> #[trigger] cell(final(table)@, a, b)
                == if sources@.contains(a) && targets@.contains(b) {
                Some(d)
            } else {
                cell(old(table)@, a, b)
            },
    no_unwind
{
    let ghost side = table@.len();
    let ghost before = table@;
    let mut i: usize = 0;
    while i < sources.len()
        invariant
            i <= sources@.len(),
            side == before.len(),
            is_square(before, side),
            is_square(table@, side),
            forall|k: int| 0 <= k < sources@.len() ==> sources@[k] < side,
            forall|k: int| 0 <= k < targets@.len() ==> targets@[k] < side,
            forall|a: usize, b: usize|
                a < side && b < side ==> #[trigger] cell(table@, a, b) == if sources@.take(
                    i as int,
                ).contains(a) && targets@.contains(b) {
                    Some(d)
                } else {
                    cell(before, a, b)
                },
        decreases sources@.len() - i,
    {
        let from = sources[i];
        let ghost outer = table@;
        let mut j: usize = 0;
        while j < targets.len()
            invariant
                j <= targets@.len(),
                i < sources@.len(),
                from == sources@[i as int],
                from < side,
                is_square(outer, side),
                is_square(table@, side),
                forall|k: int| 0 <= k < targets@.len() ==> targets@[k] < side,
                forall|a: usize, b: usize|
                    a < side && b < side ==> #[trigger] cell(table@, a, b) == if a == from
                        && targets@.take(j as int).contains(b) {
                        Some(d)
                    } else {
                        cell(outer, a, b)
                    },
            decreases targets@.len() - j,
        {
            let to = targets[j];
            let ghost inner = table@;
            table[from][to] = Some(d);
            proof {
                let grown = targets@.take(j as int + 1);
                let short = targets@.take(j as int);
                assert(grown == short.push(to));
                assert forall|b: usize| grown.contains(b) <==> (short.contains(b) || b == to) by {
                    if short.contains(b) {
                        let w = choose|w: int| 0 <= w < short.len() && short[w] == b;
                        assert(grown[w] == b);
                    }
                    if b == to {
                        assert(grown[j as int] == b);
                    }
                }
                assert forall|a: usize, b: usize| a < side && b < side implies #[trigger] cell(
                    table@,
                    a,
                    b,
                ) == if a == from && grown.contains(b) {
                    Some(d)
                } else {
                    cell(outer, a, b)
                } by {
                    assert(cell(inner, a, b) == if a == from && short.contains(b) {
                        Some(d)
                    } else {
                        cell(outer, a, b)
                    });
                    if a == from {
                        assert(table@[a as int]@ == inner[a as int]@.update(to as int, Some(d)));
                    } else {
                        assert(table@[a as int] == inner[a as int]);
                    }
                }
            }
            j = j + 1;
        }
        proof {
            assert(targets@.take(targets@.len() as int) == targets@);
            let grown = sources@.take(i as int + 1);
            let short = sources@.take(i as int);
            assert(grown == short.push(from));
            assert forall|a: usize| grown.contains(a) <==> (short.contains(a) || a == from) by {
                if short.contains(a) {
                    let w = choose|w: int| 0 <= w < short.len() && short[w] == a;
                    assert(grown[w] == a);
                }
                if a == from {
                    assert(grown[i as int] == a);
                }
            }
            assert forall|a: usize, b: usize| a < side && b < side implies #[trigger] cell(
                table@,
                a,
                b,
            ) == if grown.contains(a) && targets@.contains(b) {
                Some(d)
            } else {
                cell(before, a, b)
            } by {
                assert(cell(outer, a, b) == if short.contains(a) && targets@.contains(b) {
                    Some(d)
                } else {
                    cell(before, a, b)
                });
            }
        }
        i = i + 1;
    }
    proof {
        assert(sources@.take(sources@.len() as int) == sources@);
    }
}

/// The pools and links of a run. Once a run has started it only reads them.
pub struct Topology {
    proc_num: usize,
    pools: Vec<Pool>,
    table: Vec<Vec<Option<Distributions>>>,
}

/// Whether every member of every pool is a rank between one and `proc_num`.
pub open spec fn members_in_range(pools: Seq<Pool>, proc_num: usize) -> bool {
    forall|p: int, i: int|
        0 <= p < pools.len() && 0 <= i < pools[p].members@.len() ==> 1 <= (
        #[trigger] pools[p].members@[i]) <= proc_num
}

impl Topology {
    #[verifier::type_invariant]
    spec fn inv(self) -> bool {
        &&& self.proc_num < usize::MAX
        &&& is_square(self.table@, (self.proc_num + 1) as nat)
        &&& forall|a: usize, b: usize|
            a <= self.proc_num && b <= self.proc_num ==> match #[trigger] cell(self.table@, a, b) {
                Some(d) => d.well_formed() && 1 <= a && 1 <= b,
                None => true,
            }
        &&& members_in_range(self.pools@, self.proc_num)
    }

    /// The number of processes. Their ranks run from one to this number.
    pub closed spec fn size(&self) -> nat {
        self.proc_num as nat
    }

    /// The distribution of the latency from `from` to `to`, if the link has
    /// one.
    pub closed spec fn distribution(&self, from: Rank, to: Rank) -> Option<Distributions> {
        if from <= self.proc_num && to <= self.proc_num {
            cell(self.table@, from, to)
        } else {
            None
        }
    }

    /// The distribution of the latency from `from` to `to`, if the link has
    /// one that durations can be drawn from without a real number.
    pub open spec fn drawable(&self, from: Rank, to: Rank) -> Option<Distributions> {
        match self.distribution(from, to) {
            Some(d) => if d.needs_real_draw() {
                None
            } else {
                Some(d)
            },
            None => None,
        }
    }

    /// The pools by their names.
    pub open spec fn pools(&self) -> PoolLookup {
        |name: Seq<char>| self.pool(name)
    }

    /// The members of the pool called `name`, if there is such a pool.
    pub closed spec fn pool(&self, name: Seq<char>) -> Option<Seq<Rank>> {
        find_pool(self.pools@, name)
    }

    /// A topology of `proc_num` processes with no pool and no link.
    pub fn new(proc_num: usize) -> (topology: Self)
        requires
            proc_num < usize::MAX,
        ensures
            topology.size() == proc_num,
            forall|from: Rank, to: Rank| topology.distribution(from, to) is None,
            forall|name: Seq<char>| topology.pool(name) is None,
    {
        let side = proc_num + 1;
        let mut table: Vec<Vec<Option<Distributions>>> = Vec::new();
        let mut a: usize = 0;
        while a < side
            invariant
                a <= side,
                table@.len() == a,
                forall|x: int| 0 <= x < a ==> (#[trigger] table@[x])@.len() == side,
                forall|x: usize, y: usize| x < a && y < side
                    ==> #[trigger] cell(table@, x, y) is None,
            decreases side - a,
        {
            let mut row: Vec<Option<Distributions>> = Vec::new();
            let mut b: usize = 0;
            while b < side
                invariant
                    b <= side,
                    row@.len() == b,
                    forall|y: int| 0 <= y < b ==> row@[y] is None,
                decreases side - b,
            {
                row.push(None);
                b = b + 1;
            }
            let ghost before = table@;
            table.push(row);
            proof {
                assert forall|x: usize, y: usize| x < a + 1 && y < side implies #[trigger] cell(
                    table@,
                    x,
                    y,
                ) is None by {
                    if x < a {
                        assert(table@[x as int] == before[x as int]);
                        assert(cell(before, x, y) is None);
                    }
                }
            }
            a = a + 1;
        }
        Topology { proc_num, pools: Vec::new(), table }
    }

    /// The number of processes.
    pub fn proc_num(&self) -> (n: usize)
        ensures
            n == self.size(),
            n < usize::MAX,
    {
        proof {
            use_type_invariant(self);
        }
        self.proc_num
    }

    /// The index of the pool added last under `name`.
    fn position(&self, name: &str) -> (at: Option<usize>)
        ensures
            at is None <==> find_pool(self.pools@, name@) is None,
            at matches Some(i) ==> i < self.pools@.len() && find_pool(self.pools@, name@) == Some(
                self.pools@[i as int].members@,
            ),
    {
        let wanted = name.to_owned();
        let mut i: usize = self.pools.len();
        assert(self.pools@.take(i as int) == self.pools@);
        while i > 0
            invariant
                i <= self.pools@.len(),
                wanted@ == name@,
                find_pool(self.pools@, name@) == find_pool(self.pools@.take(i as int), name@),
            decreases i,
        {
            proof {
                let upto = self.pools@.take(i as int);
                assert(upto.last() == self.pools@[i - 1]);
                assert(upto.drop_last() == self.pools@.take(i - 1));
            }
            i = i - 1;
            if self.pools[i].name == wanted {
                return Some(i);
            }
        }
        None
    }

    /// Adds a pool. A pool added earlier under the same name is no longer
    /// found.
    pub fn add_pool(&mut self, name: &str, members: Vec<Rank>)
        requires
            forall|i: int| 0 <= i < members@.len()
                ==> 1 <= #[trigger] members@[i] <= old(self).size(),
        ensures
            final(self).size() == old(self).size(),
            final(self).pool(name@) == Some(members@),
            forall|other: Seq<char>| other != name@
                ==> final(self).pool(other) == old(self).pool(other),
            forall|from: Rank, to: Rank|
                final(self).distribution(from, to) == old(self).distribution(from, to),
    {
        proof {
            use_type_invariant(&*self);
        }
        let mut pools: Vec<Pool> = Vec::new();
        core::mem::swap(&mut self.pools, &mut pools);
        let ghost before = pools@;
        pools.push(Pool { name: name.to_owned(), members });
        proof {
            assert(pools@.drop_last() == before);
            assert forall|p: int, i: int|
                0 <= p < pools@.len() && 0 <= i < pools@[p].members@.len() implies 1 <= (
            #[trigger] pools@[p].members@[i]) <= self.proc_num by {
                if p < before.len() {
                    assert(pools@[p] == before[p]);
                }
            }
        }
        self.pools = pools;
    }

    /// Whether the link from `from` to `to` has a distribution. A link has
    /// one only between two processes of the run.
    pub fn has_distribution(&self, from: Rank, to: Rank) -> (has: bool)
        ensures
            has == self.distribution(from, to) is Some,
            has ==> 1 <= from <= self.size() && 1 <= to <= self.size(),
    {
        proof {
            use_type_invariant(self);
        }
        if from <= self.proc_num && to <= self.proc_num {
            let d = self.table[from][to];
            assert(d == cell(self.table@, from, to));
            d.is_some()
        } else {
            false
        }
    }

    /// The distribution of the latency from `from` to `to`. There is no
    /// fallback: to ask for the distribution of a link that was never
    /// described is a mistake in the configuration.
    pub fn get_distribution(&self, from: Rank, to: Rank) -> (d: Distributions)
        requires
            self.distribution(from, to) is Some,
        ensures
            Some(d) == self.distribution(from, to),
            d.well_formed(),
            1 <= from <= self.size(),
            1 <= to <= self.size(),
    {
        proof {
            use_type_invariant(self);
        }
        let found = self.table[from][to];
        assert(found == cell(self.table@, from, to));
        match found {
            Some(d) => d,
            None => vstd::pervasive::unreached(),
        }
    }

    /// The members of the pool called `pool_name`.
    pub fn list_pool(&self, pool_name: &str) -> (members: Option<&Vec<Rank>>)
        ensures
            members is None <==> self.pool(pool_name@) is None,
            members matches Some(listed) ==> self.pool(pool_name@) == Some(listed@)
                && forall|i: int|
                0 <= i < listed@.len() ==> 1 <= #[trigger] listed@[i] <= self.size(),
    {
        proof {
            use_type_invariant(self);
        }
        match self.position(pool_name) {
            None => None,
            Some(i) => {
                let listed = &self.pools[i].members;
                assert forall|k: int| 0 <= k < listed@.len() implies 1 <= #[trigger] listed@[k]
                    <= self.size() by {
                    assert(1 <= self.pools@[i as int].members@[k] <= self.proc_num);
                }
                Some(listed)
            },
        }
    }

    /// Gives the links that `description` covers its distribution. A
    /// description that names an unknown pool, or whose distribution is
    /// malformed, changes nothing.
    pub fn configure(&mut self, description: &LatencyDescription) -> (done: Result<
        (),
        TopologyError,
    >)
        ensures
            final(self).size() == old(self).size(),
            forall|name: Seq<char>| final(self).pool(name) == old(self).pool(name),
            done == description.verdict(old(self).pools()),
            forall|from: Rank, to: Rank|
                #[trigger] final(self).distribution(from, to) == if done is Ok
                    && description.covers(
                    old(self).pools(),
                    from,
                    to,
                ) {
                    Some(description.distribution())
                } else {
                    old(self).distribution(from, to)
                },
    {
        proof {
            use_type_invariant(&*self);
        }
        let ghost start = *self;
        match description {
            LatencyDescription::WithinPool(name, d) => {
                match self.position(name) {
                    None => Err(TopologyError::UnknownPool),
                    Some(i) => {
                        if !d.is_well_formed() {
                            Err(TopologyError::InvalidDistribution)
                        } else {
                            let ghost before = self.table@;
                            assert forall|k: int|
                                0 <= k < self.pools@[i as int].members@.len() implies
                                self.pools@[i as int].members@[k] < self.table@.len() by {
                                assert(1 <= self.pools@[i as int].members@[k] <= self.proc_num);
                            }
                            proof {
                                let ms = self.pools@[i as int].members@;
                                assert forall|a: usize| ms.contains(a) implies 1 <= a by {
                                    let w = choose|w: int| 0 <= w < ms.len() && ms[w] == a;
                                    assert(1 <= self.pools@[i as int].members@[w]);
                                }
                            }
                            connect(
                                &mut self.table,
                                &self.pools[i].members,
                                &self.pools[i].members,
                                *d,
                            );
                            proof {
                                let ms = self.pools@[i as int].members@;
                                assert forall|from: Rank, to: Rank|
                                    #[trigger] self.distribution(from, to) == if description.covers(
                                        start.pools(),
                                        from,
                                        to,
                                    ) {
                                        Some(description.distribution())
                                    } else {
                                        start.distribution(from, to)
                                    } by {
                                    if from <= self.proc_num && to <= self.proc_num {
                                        assert(cell(before, from, to) == cell(
                                            start.table@,
                                            from,
                                            to,
                                        ));
                                    } else {
                                        if ms.contains(from) && ms.contains(to) {
                                            let wa = choose|w: int|
                                                0 <= w < ms.len() && ms[w] == from;
                                            let wb = choose|w: int| 0 <= w < ms.len()
                                                && ms[w] == to;
                                            assert(self.pools@[i as int].members@[wa]
                                                <= self.proc_num);
                                            assert(self.pools@[i as int].members@[wb]
                                                <= self.proc_num);
                                        }
                                    }
                                }
                            }
                            Ok(())
                        }
                    },
                }
            },
            LatencyDescription::BetweenPools(first, second, d) => {
                match self.position(first) {
                    None => Err(TopologyError::UnknownPool),
                    Some(i) => {
                        match self.position(second) {
                            None => Err(TopologyError::UnknownPool),
                            Some(j) => {
                                if !d.is_well_formed() {
                                    Err(TopologyError::InvalidDistribution)
                                } else {
                                    let ghost before = self.table@;
                                    let ghost xs = self.pools@[i as int].members@;
                                    let ghost ys = self.pools@[j as int].members@;
                                    assert forall|k: int| 0 <= k < xs.len() implies xs[k]
                                        < self.table@.len() by {
                                        assert(1 <= self.pools@[i as int].members@[k]
                                            <= self.proc_num);
                                    }
                                    assert forall|k: int| 0 <= k < ys.len() implies ys[k]
                                        < self.table@.len() by {
                                        assert(1 <= self.pools@[j as int].members@[k]
                                            <= self.proc_num);
                                    }
                                    proof {
                                        assert forall|a: usize| xs.contains(a) implies 1 <= a
                                            <= self.proc_num by {
                                            let w = choose|w: int| 0 <= w < xs.len() && xs[w] == a;
                                            assert(1 <= self.pools@[i as int].members@[w]
                                                <= self.proc_num);
                                        }
                                        assert forall|a: usize| ys.contains(a) implies 1 <= a
                                            <= self.proc_num by {
                                            let w = choose|w: int| 0 <= w < ys.len() && ys[w] == a;
                                            assert(1 <= self.pools@[j as int].members@[w]
                                                <= self.proc_num);
                                        }
                                    }
                                    connect(
                                        &mut self.table,
                                        &self.pools[i].members,
                                        &self.pools[j].members,
                                        *d,
                                    );
                                    let ghost middle = self.table@;
                                    connect(
                                        &mut self.table,
                                        &self.pools[j].members,
                                        &self.pools[i].members,
                                        *d,
                                    );
                                    proof {
                                        assert forall|from: Rank, to: Rank|
                                            #[trigger] self.distribution(from, to)
                                                == if description.covers(start.pools(), from, to) {
                                                Some(description.distribution())
                                            } else {
                                                start.distribution(from, to)
                                            } by {
                                            if from <= self.proc_num && to <= self.proc_num {
                                                assert(cell(before, from, to) == cell(
                                                    start.table@,
                                                    from,
                                                    to,
                                                ));
                                                assert(cell(middle, from, to) == if xs.contains(
                                                    from,
                                                ) && ys.contains(to) {
                                                    Some(*d)
                                                } else {
                                                    cell(before, from, to)
                                                });
                                            }
                                        }
                                    }
                                    Ok(())
                                }
                            },
                        }
                    },
                }
            },
        }
    }
}

/// A way to look pools up by name.
pub type PoolLookup = spec_fn(Seq<char>) -> Option<Seq<Rank>>;

impl LatencyDescription {
    /// The distribution that the description assigns.
    pub open spec fn distribution(self) -> Distributions {
        match self {
            LatencyDescription::WithinPool(_, d) => d,
            LatencyDescription::BetweenPools(_, _, d) => d,
        }
    }

    /// Whether `pools` has every pool that the description names.
    pub open spec fn pools_known(self, pools: PoolLookup) -> bool {
        match self {
            LatencyDescription::WithinPool(name, _) => pools(name@) is Some,
            LatencyDescription::BetweenPools(first, second, _) => pools(first@) is Some && pools(
                second@,
            ) is Some,
        }
    }

    /// Whether the description gives the link from `from` to `to` a
    /// distribution.
    pub open spec fn covers(self, pools: PoolLookup, from: Rank, to: Rank) -> bool {
        match self {
            LatencyDescription::WithinPool(name, _) => {
                match pools(name@) {
                    Some(members) => members.contains(from) && members.contains(to),
                    None => false,
                }
            },
            LatencyDescription::BetweenPools(first, second, _) => {
                match (pools(first@), pools(second@)) {
                    (Some(xs), Some(ys)) => (xs.contains(from) && ys.contains(to)) || (ys.contains(
                        from,
                    ) && xs.contains(to)),
                    _ => false,
                }
            },
        }
    }

    /// What a topology with the pools `pools` answers to the description.
    pub open spec fn verdict(self, pools: PoolLookup) -> Result<(), TopologyError> {
        if !self.pools_known(pools) {
            Err(TopologyError::UnknownPool)
        } else if !self.distribution().well_formed() {
            Err(TopologyError::InvalidDistribution)
        } else {
            Ok(())
        }
    }
}

} // verus!
