//! What a process can learn of the run it is part of.

use vstd::prelude::*;

use crate::kv::Kv;
use crate::kv::Storable;
use crate::kv::Value;
use crate::random::Seed;
use crate::text::append_decimal;
use crate::text::decimal;
use crate::topology::Rank;

verus! {

/// What a process is told when it starts.
#[derive(Clone, Copy, Debug, PartialEq, Eq, Structural)]
pub struct Configuration {
    /// The seed of the process.
    pub seed: Seed,
    /// The number of processes of the run.
    pub proc_num: usize,
}

/// The key under which the number of processes is stored.
pub const PROC_NUM_KEY: &'static str = "proc_num";

/// The key under which the seed of the process with rank `id` is stored.
pub open spec fn seed_key(id: Rank) -> Seq<char> {
    "seeds/"@ + decimal(id as nat)
}

/// The key under which the seed of the process with rank `id` is stored.
pub fn seed_key_of(id: Rank) -> (key: String)
    ensures
        key@ == seed_key(id),
{
    let mut key = "seeds/".to_owned();
    append_decimal(&mut key, id);
    key
}

/// The keys of two processes differ, and none is the key of the number of
/// processes.
pub proof fn lemma_keys_differ(a: Rank, b: Rank)
    ensures
        seed_key(a) == seed_key(b) ==> a == b,
        seed_key(a) != PROC_NUM_KEY@,
{
    reveal_strlit("seeds/");
    reveal_strlit("proc_num");
    let prefix = "seeds/"@;
    assert(seed_key(a)[0] == 's');
    assert(PROC_NUM_KEY@[0] == 'p');
    if seed_key(a) == seed_key(b) {
        assert(seed_key(a).subrange(prefix.len() as int, seed_key(a).len() as int) =~= decimal(
            a as nat,
        ));
        assert(seed_key(b).subrange(prefix.len() as int, seed_key(b).len() as int) =~= decimal(
            b as nat,
        ));
        crate::text::lemma_decimal_injective(a as nat, b as nat);
    }
}

/// `store` with the seeds of the processes with ranks one to `upto`.
pub open spec fn with_seeds(store: Map<Seq<char>, Value>, upto: nat, base_seed: Seed) -> Map<
    Seq<char>,
    Value,
>
    decreases upto,
{
    if upto == 0 {
        store
    } else {
        with_seeds(store, (upto - 1) as nat, base_seed).insert(
            seed_key(upto as usize),
            Value::U64((base_seed + upto) as u64),
        )
    }
}

/// `store` with what every process of a run of `proc_num` processes can
/// ask for: its seed and the number of processes.
pub open spec fn configured(store: Map<Seq<char>, Value>, proc_num: usize, base_seed: Seed) -> Map<
    Seq<char>,
    Value,
> {
    with_seeds(store, proc_num as nat, base_seed).insert(PROC_NUM_KEY@, Value::Usize(proc_num))
}

/// A configured store holds the seed of every process: the seed of the run
/// plus the rank.
pub proof fn lemma_with_seeds_holds(
    store: Map<Seq<char>, Value>,
    upto: nat,
    base_seed: Seed,
    rank: Rank,
)
    requires
        1 <= rank <= upto,
        upto <= usize::MAX,
    ensures
        with_seeds(store, upto, base_seed).contains_key(seed_key(rank)),
        with_seeds(store, upto, base_seed)[seed_key(rank)] == Value::U64(
            (base_seed + rank) as u64,
        ),
    decreases upto,
{
    if rank < upto {
        lemma_with_seeds_holds(store, (upto - 1) as nat, base_seed, rank);
        lemma_keys_differ(rank, upto as usize);
    }
}

/// A configured store holds the number of processes and the seed of each.
pub proof fn lemma_configured_holds(
    store: Map<Seq<char>, Value>,
    proc_num: usize,
    base_seed: Seed,
    rank: Rank,
)
    requires
        1 <= rank <= proc_num,
    ensures
        configured(store, proc_num, base_seed).contains_key(PROC_NUM_KEY@),
        configured(store, proc_num, base_seed)[PROC_NUM_KEY@] == Value::Usize(proc_num),
        configured(store, proc_num, base_seed).contains_key(seed_key(rank)),
        configured(store, proc_num, base_seed)[seed_key(rank)] == Value::U64(
            (base_seed + rank) as u64,
        ),
{
    lemma_with_seeds_holds(store, proc_num as nat, base_seed, rank);
    lemma_keys_differ(rank, rank);
}

/// Records what every process of a run of `proc_num` processes can ask
/// for.
pub fn setup_configuration(kv: &mut Kv, proc_num: usize, base_seed: Seed)
    requires
        base_seed + proc_num <= u64::MAX,
    ensures
        final(kv)@ == configured(old(kv)@, proc_num, base_seed),
{
    let mut id: usize = 0;
    while id < proc_num
        invariant
            id <= proc_num,
            base_seed + proc_num <= u64::MAX,
            kv@ == with_seeds(old(kv)@, id as nat, base_seed),
        decreases proc_num - id,
    {
        id = id + 1;
        setup_local_configuration(kv, id, base_seed);
    }
    setup_global_configuration(kv, proc_num);
}

/// Records the number of processes of the run.
pub fn setup_global_configuration(kv: &mut Kv, proc_num: usize)
    ensures
        final(kv)@ == old(kv)@.insert(PROC_NUM_KEY@, proc_num.to_value()),
{
    crate::kv::set::<usize>(kv, PROC_NUM_KEY, proc_num)
}

/// Records the seed of the process with rank `id`: the seed of the run
/// plus the rank, so that no two processes draw the same stream.
pub fn setup_local_configuration(kv: &mut Kv, id: Rank, base_seed: Seed)
    requires
        base_seed + id <= u64::MAX,
    ensures
        final(kv)@ == old(kv)@.insert(seed_key(id), ((base_seed + id) as u64).to_value()),
{
    let key = seed_key_of(id);
    crate::kv::set::<u64>(kv, key.as_str(), base_seed + id as u64)
}

/// The seed of the process with rank `rank`.
pub fn seed(kv: &Kv, rank: Rank) -> (seed: Seed)
    requires
        kv.has::<u64>(seed_key(rank)),
    ensures
        seed.to_value() == kv@[seed_key(rank)],
{
    let key = seed_key_of(rank);
    crate::kv::get::<u64>(kv, key.as_str())
}

/// The number of processes of the run.
pub fn process_number(kv: &Kv) -> (proc_num: usize)
    requires
        kv.has::<usize>(PROC_NUM_KEY@),
    ensures
        proc_num.to_value() == kv@[PROC_NUM_KEY@],
{
    crate::kv::get::<usize>(kv, PROC_NUM_KEY)
}

} // verus!
