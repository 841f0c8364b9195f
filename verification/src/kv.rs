//! A store of named values that the processes of a run and its host share.

use vstd::prelude::*;

use crate::jiffies::Jiffies;

verus! {

/// A value that the store can hold.
#[derive(Clone, Copy, Debug, PartialEq, Eq, Structural)]
pub enum Value {
    Usize(usize),
    U64(u64),
    Bool(bool),
    Time(Jiffies),
    Pair(usize, usize),
}

/// A type whose values can be put into the store and read back from it.
pub trait Storable: Sized {
    /// The stored form of a value.
    spec fn to_value(self) -> Value;

    /// The value that a stored form stands for, if it is one of this type.
    spec fn from_value(stored: Value) -> Option<Self>;

    /// What is put in comes out unchanged.
    proof fn lemma_round_trip(self)
        ensures
            Self::from_value(self.to_value()) == Some(self),
    ;

    /// Only one stored form reads back as a given value.
    proof fn lemma_stored_form(self, stored: Value)
        requires
            Self::from_value(stored) == Some(self),
        ensures
            stored == self.to_value(),
    ;

    /// Turns a value into its stored form.
    fn store(self) -> (stored: Value)
        ensures
            stored == self.to_value(),
    ;

    /// Reads a stored form back.
    fn load(stored: Value) -> (value: Option<Self>)
        ensures
            value == Self::from_value(stored),
    ;
}

impl Storable for usize {
    open spec fn to_value(self) -> Value {
        Value::Usize(self)
    }

    open spec fn from_value(stored: Value) -> Option<usize> {
        match stored {
            Value::Usize(n) => Some(n),
            _ => None,
        }
    }

    proof fn lemma_round_trip(self) {
    }

    proof fn lemma_stored_form(self, stored: Value) {
    }

    fn store(self) -> (stored: Value) {
        Value::Usize(self)
    }

    fn load(stored: Value) -> (value: Option<usize>) {
        match stored {
            Value::Usize(n) => Some(n),
            _ => None,
        }
    }
}

impl Storable for u64 {
    open spec fn to_value(self) -> Value {
        Value::U64(self)
    }

    open spec fn from_value(stored: Value) -> Option<u64> {
        match stored {
            Value::U64(n) => Some(n),
            _ => None,
        }
    }

    proof fn lemma_round_trip(self) {
    }

    proof fn lemma_stored_form(self, stored: Value) {
    }

    fn store(self) -> (stored: Value) {
        Value::U64(self)
    }

    fn load(stored: Value) -> (value: Option<u64>) {
        match stored {
            Value::U64(n) => Some(n),
            _ => None,
        }
    }
}

impl Storable for bool {
    open spec fn to_value(self) -> Value {
        Value::Bool(self)
    }

    open spec fn from_value(stored: Value) -> Option<bool> {
        match stored {
            Value::Bool(b) => Some(b),
            _ => None,
        }
    }

    proof fn lemma_round_trip(self) {
    }

    proof fn lemma_stored_form(self, stored: Value) {
    }

    fn store(self) -> (stored: Value) {
        Value::Bool(self)
    }

    fn load(stored: Value) -> (value: Option<bool>) {
        match stored {
            Value::Bool(b) => Some(b),
            _ => None,
        }
    }
}

impl Storable for Jiffies {
    open spec fn to_value(self) -> Value {
        Value::Time(self)
    }

    open spec fn from_value(stored: Value) -> Option<Jiffies> {
        match stored {
            Value::Time(t) => Some(t),
            _ => None,
        }
    }

    proof fn lemma_round_trip(self) {
    }

    proof fn lemma_stored_form(self, stored: Value) {
    }

    fn store(self) -> (stored: Value) {
        Value::Time(self)
    }

    fn load(stored: Value) -> (value: Option<Jiffies>) {
        match stored {
            Value::Time(t) => Some(t),
            _ => None,
        }
    }
}

impl Storable for (usize, usize) {
    open spec fn to_value(self) -> Value {
        Value::Pair(self.0, self.1)
    }

    open spec fn from_value(stored: Value) -> Option<(usize, usize)> {
        match stored {
            Value::Pair(first, second) => Some((first, second)),
            _ => None,
        }
    }

    proof fn lemma_round_trip(self) {
    }

    proof fn lemma_stored_form(self, stored: Value) {
    }

    fn store(self) -> (stored: Value) {
        Value::Pair(self.0, self.1)
    }

    fn load(stored: Value) -> (value: Option<(usize, usize)>) {
        match stored {
            Value::Pair(first, second) => Some((first, second)),
            _ => None,
        }
    }
}

/// The map that a list of entries stands for: an entry further back
/// overrides one further in front.
pub open spec fn as_map(entries: Seq<(String, Value)>) -> Map<Seq<char>, Value>
    decreases entries.len(),
{
    if entries.len() == 0 {
        Map::empty()
    } else {
        as_map(entries.drop_last()).insert(entries.last().0@, entries.last().1)
    }
}

/// An entry behind which no entry has the same key is what the map holds
/// under that key.
proof fn lemma_last_entry_wins(entries: Seq<(String, Value)>, at: int)
    requires
        0 <= at < entries.len(),
        forall|j: int| at < j < entries.len() ==> entries[j].0@ != entries[at].0@,
    ensures
        as_map(entries).contains_key(entries[at].0@),
        as_map(entries)[entries[at].0@] == entries[at].1,
    decreases entries.len(),
{
    if at < entries.len() - 1 {
        assert(entries.last().0@ != entries[at].0@);
        assert(entries.drop_last()[at] == entries[at]);
        assert forall|j: int| at < j < entries.drop_last().len() implies entries.drop_last()[j].0@
            != entries.drop_last()[at].0@ by {
            assert(entries.drop_last()[j] == entries[j]);
        }
        lemma_last_entry_wins(entries.drop_last(), at);
    }
}

/// A key that no entry has is not in the map.
proof fn lemma_absent_key(entries: Seq<(String, Value)>, key: Seq<char>)
    requires
        forall|j: int| 0 <= j < entries.len() ==> entries[j].0@ != key,
    ensures
        !as_map(entries).contains_key(key),
    decreases entries.len(),
{
    if entries.len() > 0 {
        assert(entries.last().0@ != key);
        assert forall|j: int| 0 <= j < entries.drop_last().len() implies entries.drop_last()[j].0@
            != key by {
            assert(entries.drop_last()[j] == entries[j]);
        }
        lemma_absent_key(entries.drop_last(), key);
    }
}

/// Replacing the value of the entry that wins for its key is inserting the
/// new value under that key.
proof fn lemma_replace_value(entries: Seq<(String, Value)>, at: int, value: Value)
    requires
        0 <= at < entries.len(),
        forall|j: int| at < j < entries.len() ==> entries[j].0@ != entries[at].0@,
    ensures
        as_map(entries.update(at, (entries[at].0, value))) == as_map(entries).insert(
            entries[at].0@,
            value,
        ),
    decreases entries.len(),
{
    let changed = entries.update(at, (entries[at].0, value));
    if at == entries.len() - 1 {
        assert(changed.drop_last() == entries.drop_last());
        assert(as_map(changed) =~= as_map(entries).insert(entries[at].0@, value));
    } else {
        assert(entries.last().0@ != entries[at].0@);
        assert(changed.last() == entries.last());
        assert(changed.drop_last() == entries.drop_last().update(at, (entries[at].0, value)));
        assert(entries.drop_last()[at] == entries[at]);
        assert forall|j: int| at < j < entries.drop_last().len() implies entries.drop_last()[j].0@
            != entries.drop_last()[at].0@ by {
            assert(entries.drop_last()[j] == entries[j]);
        }
        lemma_replace_value(entries.drop_last(), at, value);
        assert(as_map(changed) =~= as_map(entries).insert(entries[at].0@, value));
    }
}

/// A store of values under string keys.
pub struct Kv {
    entries: Vec<(String, Value)>,
}

impl View for Kv {
    type V = Map<Seq<char>, Value>;

    closed spec fn view(&self) -> Map<Seq<char>, Value> {
        as_map(self.entries@)
    }
}

impl Kv {
    /// An empty store.
    pub fn new() -> (kv: Self)
        ensures
            kv@ == Map::<Seq<char>, Value>::empty(),
    {
        Kv { entries: Vec::new() }
    }

    /// Whether the store holds a value of type `T` under `key`.
    pub open spec fn has<T: Storable>(&self, key: Seq<char>) -> bool {
        self@.contains_key(key) && T::from_value(self@[key]) is Some
    }

    /// The index of the entry that holds the value of `key`.
    fn position(&self, key: &str) -> (at: Option<usize>)
        ensures
            at is None <==> !self@.contains_key(key@),
            at matches Some(i) ==> i < self.entries@.len() && self.entries@[i as int].0@ == key@
                && self@[key@] == self.entries@[i as int].1 && forall|j: int|
                i < j < self.entries@.len() ==> self.entries@[j].0@ != key@,
    {
        let wanted = key.to_owned();
        let mut i: usize = self.entries.len();
        while i > 0
            invariant
                i <= self.entries@.len(),
                wanted@ == key@,
                forall|j: int| i <= j < self.entries@.len() ==> self.entries@[j].0@ != key@,
            decreases i,
        {
            i = i - 1;
            if self.entries[i].0 == wanted {
                proof {
                    lemma_last_entry_wins(self.entries@, i as int);
                }
                return Some(i);
            }
        }
        proof {
            lemma_absent_key(self.entries@, key@);
        }
        None
    }

    /// Whether the store holds a value of type `T` under `key`.
    pub fn holds<T: Storable>(&self, key: &str) -> (held: bool)
        ensures
            held == self.has::<T>(key@),
    {
        match self.position(key) {
            None => false,
            Some(i) => T::load(self.entries[i].1).is_some(),
        }
    }
}

/// Stores `value` under `key`, in place of what was there.
pub fn set<T: Storable>(kv: &mut Kv, key: &str, value: T)
    ensures
        final(kv)@ == old(kv)@.insert(key@, value.to_value()),
        final(kv).has::<T>(key@),
{
    proof {
        value.lemma_round_trip();
    }
    let stored = value.store();
    match kv.position(key) {
        None => {
            let ghost before = kv.entries@;
            kv.entries.push((key.to_owned(), stored));
            assert(kv.entries@.drop_last() == before);
        },
        Some(i) => {
            proof {
                lemma_replace_value(kv.entries@, i as int, stored);
            }
            let ghost before = kv.entries@;
            kv.entries[i].1 = stored;
            assert(kv.entries@ == before.update(i as int, (before[i as int].0, stored)));
        },
    }
}

/// The value stored under `key`.
pub fn get<T: Storable>(kv: &Kv, key: &str) -> (value: T)
    requires
        kv.has::<T>(key@),
    ensures
        Some(value) == T::from_value(kv@[key@]),
        value.to_value() == kv@[key@],
{
    match kv.position(key) {
        None => vstd::pervasive::unreached(),
        Some(i) => {
            match T::load(kv.entries[i].1) {
                None => vstd::pervasive::unreached(),
                Some(value) => {
                    proof {
                        value.lemma_stored_form(kv@[key@]);
                    }
                    value
                },
            }
        },
    }
}

/// Replaces the value stored under `key` by what `f` makes of it.
pub fn modify<T: Storable, F: FnOnce(T) -> T>(kv: &mut Kv, key: &str, f: F)
    requires
        old(kv).has::<T>(key@),
        f.requires((T::from_value(old(kv)@[key@])->0,)),
    ensures
        final(kv).has::<T>(key@),
        exists|changed: T|
            f.ensures((T::from_value(old(kv)@[key@])->0,), changed) && #[trigger] old(kv)@.insert(
                key@,
                changed.to_value(),
            ) == final(kv)@,
{
    let previous: T = get::<T>(kv, key);
    let changed: T = f(previous);
    set::<T>(kv, key, changed);
    assert(old(kv)@.insert(key@, changed.to_value()) == kv@);
}

/// The number counted under `key`: the `usize` stored there, or zero where
/// there is none.
pub open spec fn counter(store: Map<Seq<char>, Value>, key: Seq<char>) -> usize {
    if store.contains_key(key) {
        match store[key] {
            Value::Usize(n) => n,
            _ => 0,
        }
    } else {
        0
    }
}

/// Adds `amount` to the number counted under `key`. The count starts at
/// zero where the store holds no `usize` under `key`, and stays at the
/// largest `usize` once it got there.
pub fn add_to(kv: &mut Kv, key: &str, amount: usize)
    ensures
        final(kv)@ == old(kv)@.insert(
            key@,
            Value::Usize(crate::jiffies::capped_sum(counter(old(kv)@, key@), amount)),
        ),
{
    let current: usize = if kv.holds::<usize>(key) {
        get::<usize>(kv, key)
    } else {
        0
    };
    self::set::<usize>(kv, key, crate::jiffies::capped_add(current, amount));
}

/// Empties the store, as at the start of a run.
pub fn drop_kv(kv: &mut Kv)
    ensures
        final(kv)@ == Map::<Seq<char>, Value>::empty(),
{
    kv.entries = Vec::new();
}

/// What was stored under a key is what is read back from it.
pub proof fn lemma_set_then_get<T: Storable>(
    before: Map<Seq<char>, Value>,
    key: Seq<char>,
    value: T,
)
    ensures
        before.insert(key, value.to_value()).contains_key(key),
        T::from_value(before.insert(key, value.to_value())[key]) == Some(value),
{
    value.lemma_round_trip();
}

/// After a value was replaced by what a function made of it, that is what
/// is read back.
pub proof fn lemma_modify_then_get<T: Storable>(
    before: Map<Seq<char>, Value>,
    after: Map<Seq<char>, Value>,
    key: Seq<char>,
    changed: T,
)
    requires
        after == before.insert(key, changed.to_value()),
    ensures
        after.contains_key(key),
        T::from_value(after[key]) == Some(changed),
{
    changed.lemma_round_trip();
}

} // verus!
