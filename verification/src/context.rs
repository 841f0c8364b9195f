//! What a process can see and do while one of its callbacks runs.

use std::rc::Rc;
use vstd::prelude::*;

use crate::configuration::Configuration;
use crate::jiffies::Jiffies;
use crate::kv::Kv;
use crate::kv::Storable;
use crate::kv::Value;
use crate::message::Destination;
use crate::message::Message;
use crate::random::Randomizer;
use crate::random::Seed;
use crate::timer::TimerId;
use crate::topology::Rank;
use crate::topology::Topology;
use crate::tso::Tso;

verus! {

/// A message that a process has asked to send.
pub struct Outgoing<M> {
    /// Where it goes.
    pub destination: Destination,
    /// Its virtual size, taken when it was handed over.
    pub size: usize,
    /// The message itself.
    pub message: Rc<M>,
}

/// The surroundings of the process whose callback runs: the clock, its own
/// rank, the pools, the shared store, and a place where the messages and
/// timers that it asks for wait until the callback has returned.
pub struct Context<M> {
    present: Jiffies,
    current: Rank,
    tso: Tso,
    kv: Kv,
    topology: Rc<Topology>,
    chooser: Randomizer,
    scheduled_messages: Vec<Outgoing<M>>,
    scheduled_timers: Vec<(TimerId, Jiffies)>,
}

impl<M> Context<M> {
    /// The current instant.
    pub closed spec fn time(&self) -> Jiffies {
        self.present
    }

    /// The rank of the process whose callback runs.
    pub closed spec fn current(&self) -> Rank {
        self.current
    }

    /// How many identifiers have been handed out.
    pub closed spec fn ids_issued(&self) -> nat {
        self.tso.issued()
    }

    /// The contents of the shared store.
    pub closed spec fn store(&self) -> Map<Seq<char>, Value> {
        self.kv@
    }

    /// The pools and links of the run.
    pub closed spec fn topology(&self) -> Topology {
        *self.topology
    }

    /// The messages that wait to be sent, in the order in which they were
    /// asked for.
    pub closed spec fn outgoing(&self) -> Seq<Outgoing<M>> {
        self.scheduled_messages@
    }

    /// The timers that wait to be set, in the order in which they were
    /// asked for.
    pub closed spec fn timers(&self) -> Seq<(TimerId, Jiffies)> {
        self.scheduled_timers@
    }

    /// Whether two contexts differ at most in what waits to be sent.
    pub open spec fn same_but_outgoing(&self, other: &Self) -> bool {
        &&& self.time() == other.time()
        &&& self.current() == other.current()
        &&& self.ids_issued() == other.ids_issued()
        &&& self.store() == other.store()
        &&& self.topology() == other.topology()
        &&& self.timers() == other.timers()
    }

    /// The surroundings at the start of a run: instant zero, no identifier
    /// handed out, an empty store, nothing waiting.
    pub fn new(topology: Rc<Topology>, seed: Seed) -> (ctx: Self)
        ensures
            ctx.time() == Jiffies(0),
            ctx.current() == 0,
            ctx.ids_issued() == 0,
            ctx.store() == Map::<Seq<char>, Value>::empty(),
            ctx.topology() == *topology,
            ctx.outgoing() == Seq::<Outgoing<M>>::empty(),
            ctx.timers() == Seq::<(TimerId, Jiffies)>::empty(),
    {
        Context {
            present: Jiffies(0),
            current: 0,
            tso: Tso::new(),
            kv: Kv::new(),
            topology,
            chooser: Randomizer::new(seed),
            scheduled_messages: Vec::new(),
            scheduled_timers: Vec::new(),
        }
    }

    /// The surroundings of the process with rank `rank` at the instant
    /// `present` of a run that has handed out no identifier and stored
    /// nothing. With them a process can be tried on its own.
    pub fn for_process(
        topology: Rc<Topology>,
        seed: Seed,
        rank: Rank,
        present: Jiffies,
    ) -> (ctx: Self)
        ensures
            ctx.time() == present,
            ctx.current() == rank,
            ctx.ids_issued() == 0,
            ctx.store() == Map::<Seq<char>, Value>::empty(),
            ctx.topology() == *topology,
            ctx.outgoing() == Seq::<Outgoing<M>>::empty(),
            ctx.timers() == Seq::<(TimerId, Jiffies)>::empty(),
    {
        let mut ctx = Context::new(topology, seed);
        ctx.set_now(present);
        ctx.set_process(rank);
        ctx
    }

    /// The current instant.
    pub fn now(&self) -> (present: Jiffies)
        ensures
            present == self.time(),
    {
        self.present
    }

    /// The rank of the process whose callback runs.
    pub fn rank(&self) -> (rank: Rank)
        ensures
            rank == self.current(),
    {
        self.current
    }

    /// The members of the pool called `name`, if there is such a pool.
    pub fn list_pool(&self, name: &str) -> (members: Option<&Vec<Rank>>)
        ensures
            members is None <==> self.topology().pool(name@) is None,
            members matches Some(listed) ==> self.topology().pool(name@) == Some(listed@)
                && forall|i: int|
                0 <= i < listed@.len() ==> 1 <= #[trigger] listed@[i] <= self.topology().size(),
    {
        self.topology.list_pool(name)
    }

    /// An identifier that no earlier call in this run has returned.
    pub fn global_unique_id(&mut self) -> (id: usize)
        requires
            old(self).ids_issued() < usize::MAX,
        ensures
            id == old(self).ids_issued(),
            final(self).ids_issued() == old(self).ids_issued() + 1,
            final(self).time() == old(self).time(),
            final(self).current() == old(self).current(),
            final(self).store() == old(self).store(),
            final(self).topology() == old(self).topology(),
            final(self).outgoing() == old(self).outgoing(),
            final(self).timers() == old(self).timers(),
    {
        crate::tso::global_unique_id(&mut self.tso)
    }

    /// Whether another identifier, and so another timer, can be had.
    pub fn has_unique_id(&self) -> (more: bool)
        ensures
            more == (self.ids_issued() < usize::MAX),
    {
        self.tso.has_next()
    }

    /// Asks for `message` to be sent to `destination`. It is handed to
    /// the network once the callback has returned.
    fn stage(&mut self, destination: Destination, message: M) where M: Message
        ensures
            final(self).same_but_outgoing(old(self)),
            final(self).outgoing().len() == old(self).outgoing().len() + 1,
            final(self).outgoing().drop_last() == old(self).outgoing(),
            final(self).outgoing().last().destination == destination,
            *final(self).outgoing().last().message == message,
            M::is_free() ==> final(self).outgoing().last().size == 0,
    {
        let size = message.virtual_size();
        self.scheduled_messages.push(Outgoing { destination, size, message: Rc::new(message) });
    }

    /// Asks for `message` to be sent to the process with rank `to`. A
    /// message sent at one instant arrives at a later one.
    pub fn send_to(&mut self, to: Rank, message: M) where M: Message
        ensures
            final(self).same_but_outgoing(old(self)),
            final(self).outgoing().len() == old(self).outgoing().len() + 1,
            final(self).outgoing().drop_last() == old(self).outgoing(),
            final(self).outgoing().last().destination == Destination::To(to),
            *final(self).outgoing().last().message == message,
            M::is_free() ==> final(self).outgoing().last().size == 0,
    {
        self.stage(Destination::To(to), message)
    }

    /// Asks for `message` to be sent to the process itself.
    pub fn send_self(&mut self, message: M) where M: Message
        ensures
            final(self).same_but_outgoing(old(self)),
            final(self).outgoing().len() == old(self).outgoing().len() + 1,
            final(self).outgoing().drop_last() == old(self).outgoing(),
            final(self).outgoing().last().destination == Destination::SendSelf,
            *final(self).outgoing().last().message == message,
            M::is_free() ==> final(self).outgoing().last().size == 0,
    {
        self.stage(Destination::SendSelf, message)
    }

    /// Asks for `message` to be sent to every process of the run, the
    /// sender included.
    pub fn broadcast(&mut self, message: M) where M: Message
        ensures
            final(self).same_but_outgoing(old(self)),
            final(self).outgoing().len() == old(self).outgoing().len() + 1,
            final(self).outgoing().drop_last() == old(self).outgoing(),
            final(self).outgoing().last().destination == Destination::Broadcast,
            *final(self).outgoing().last().message == message,
            M::is_free() ==> final(self).outgoing().last().size == 0,
    {
        self.stage(Destination::Broadcast, message)
    }

    /// Asks for `message` to be sent to one member of the pool called
    /// `pool`, each member being as likely as any other.
    pub fn send_random_from_pool(&mut self, pool: &str, message: M) where M: Message
        requires
            old(self).topology().pool(pool@) matches Some(members) && members.len() > 0,
        ensures
            final(self).time() == old(self).time(),
            final(self).current() == old(self).current(),
            final(self).ids_issued() == old(self).ids_issued(),
            final(self).store() == old(self).store(),
            final(self).topology() == old(self).topology(),
            final(self).timers() == old(self).timers(),
            final(self).outgoing().len() == old(self).outgoing().len() + 1,
            final(self).outgoing().drop_last() == old(self).outgoing(),
            final(self).outgoing().last().destination matches Destination::To(chosen)
                && old(self).topology().pool(pool@)->0.contains(chosen),
            *final(self).outgoing().last().message == message,
            M::is_free() ==> final(self).outgoing().last().size == 0,
    {
        let chosen = match self.topology.list_pool(pool) {
            None => vstd::pervasive::unreached(),
            Some(members) => self.chooser.choose_from_slice(members.as_slice()),
        };
        self.stage(Destination::To(chosen), message)
    }

    /// Asks for a timer that fires `after` from now, and returns the
    /// identifier with which it will fire.
    pub fn schedule_timer_after(&mut self, after: Jiffies) -> (id: TimerId)
        requires
            old(self).ids_issued() < usize::MAX,
        ensures
            id == old(self).ids_issued(),
            final(self).ids_issued() == old(self).ids_issued() + 1,
            final(self).timers() == old(self).timers().push((id, after)),
            final(self).time() == old(self).time(),
            final(self).current() == old(self).current(),
            final(self).store() == old(self).store(),
            final(self).topology() == old(self).topology(),
            final(self).outgoing() == old(self).outgoing(),
    {
        let id = crate::timer::next_timer_id(&mut self.tso);
        self.scheduled_timers.push((id, after));
        id
    }

    /// The shared store.
    pub fn kv(&self) -> (kv: &Kv)
        ensures
            kv@ == self.store(),
    {
        &self.kv
    }

    /// The shared store, to write to.
    pub fn kv_mut(&mut self) -> (kv: &mut Kv)
        ensures
            kv@ == old(self).store(),
            final(self).store() == final(kv)@,
            final(self).time() == old(self).time(),
            final(self).current() == old(self).current(),
            final(self).ids_issued() == old(self).ids_issued(),
            final(self).topology() == old(self).topology(),
            final(self).outgoing() == old(self).outgoing(),
            final(self).timers() == old(self).timers(),
    {
        &mut self.kv
    }

    /// The seed of the process whose callback runs.
    pub fn seed(&self) -> (seed: Seed)
        requires
            self.store().contains_key(crate::configuration::seed_key(self.current())),
            u64::from_value(self.store()[crate::configuration::seed_key(self.current())]) is Some,
        ensures
            seed.to_value() == self.store()[crate::configuration::seed_key(self.current())],
    {
        crate::configuration::seed(&self.kv, self.current)
    }

    /// What the process whose callback runs is told of the run.
    pub fn configuration(&self) -> (configuration: Configuration)
        requires
            self.store().contains_key(crate::configuration::seed_key(self.current())),
            u64::from_value(self.store()[crate::configuration::seed_key(self.current())]) is Some,
        ensures
            configuration.seed.to_value() == self.store()[crate::configuration::seed_key(
                self.current(),
            )],
            configuration.proc_num == self.topology().size(),
    {
        Configuration { seed: self.seed(), proc_num: self.process_number() }
    }

    /// The number of processes of the run.
    pub fn process_number(&self) -> (proc_num: usize)
        ensures
            proc_num == self.topology().size(),
    {
        self.topology.proc_num()
    }

    /// The surroundings as the process with rank `rank` finds them: the
    /// same, but for the rank of the process whose callback runs.
    pub closed spec fn with_current(self, rank: Rank) -> Self {
        Context { current: rank, ..self }
    }

    /// The surroundings that a process finds differ from those before it
    /// in the rank alone.
    pub proof fn lemma_with_current(self, rank: Rank)
        ensures
            self.with_current(rank).current() == rank,
            self.with_current(rank).time() == self.time(),
            self.with_current(rank).ids_issued() == self.ids_issued(),
            self.with_current(rank).store() == self.store(),
            self.with_current(rank).topology() == self.topology(),
            self.with_current(rank).outgoing() == self.outgoing(),
            self.with_current(rank).timers() == self.timers(),
    {
    }

    /// The surroundings at the instant `now`: the same, but for the
    /// instant.
    pub closed spec fn with_time(self, now: Jiffies) -> Self {
        Context { present: now, ..self }
    }

    /// The surroundings at another instant differ from those before in the
    /// instant alone.
    pub proof fn lemma_with_time(self, now: Jiffies)
        ensures
            self.with_time(now).time() == now,
            self.with_time(now).current() == self.current(),
            self.with_time(now).ids_issued() == self.ids_issued(),
            self.with_time(now).store() == self.store(),
            self.with_time(now).topology() == self.topology(),
            self.with_time(now).outgoing() == self.outgoing(),
            self.with_time(now).timers() == self.timers(),
    {
    }

    /// The surroundings as the process with rank `rank` finds them when
    /// its callback runs at the instant `now`.
    pub open spec fn shown(self, now: Jiffies, rank: Rank) -> Self {
        self.with_time(now).with_current(rank)
    }

    /// Whether two surroundings show a process the same: the instant, the
    /// rank, the identifiers handed out, the store, the pools and what
    /// waits.
    pub open spec fn shows_the_same(&self, other: &Self) -> bool {
        &&& self.time() == other.time()
        &&& self.current() == other.current()
        &&& self.ids_issued() == other.ids_issued()
        &&& self.store() == other.store()
        &&& self.topology() == other.topology()
        &&& self.outgoing() == other.outgoing()
        &&& self.timers() == other.timers()
    }

    /// Whether `self` is what `left` is once everything that waited in it
    /// has been handed on: nothing waits, and the rest is as it was.
    pub open spec fn emptied_from(&self, left: &Self) -> bool {
        &&& self.time() == left.time()
        &&& self.current() == left.current()
        &&& self.ids_issued() == left.ids_issued()
        &&& self.store() == left.store()
        &&& self.topology() == left.topology()
        &&& self.outgoing() == Seq::<Outgoing<M>>::empty()
        &&& self.timers() == Seq::<(TimerId, Jiffies)>::empty()
    }

    /// Says which process the next callback belongs to.
    pub(crate) fn set_process(&mut self, rank: Rank)
        ensures
            *final(self) == old(self).with_current(rank),
            final(self).current() == rank,
            final(self).time() == old(self).time(),
            final(self).ids_issued() == old(self).ids_issued(),
            final(self).store() == old(self).store(),
            final(self).topology() == old(self).topology(),
            final(self).outgoing() == old(self).outgoing(),
            final(self).timers() == old(self).timers(),
    {
        self.current = rank;
    }

    /// Shows the process the instant that the clock of the run is at.
    pub(crate) fn set_now(&mut self, present: Jiffies)
        ensures
            *final(self) == old(self).with_time(present),
            final(self).time() == present,
            final(self).current() == old(self).current(),
            final(self).ids_issued() == old(self).ids_issued(),
            final(self).store() == old(self).store(),
            final(self).topology() == old(self).topology(),
            final(self).outgoing() == old(self).outgoing(),
            final(self).timers() == old(self).timers(),
    {
        self.present = present;
    }

    /// Hands over the messages that were asked for and leaves none waiting.
    pub fn drain_messages(&mut self) -> (messages: Vec<Outgoing<M>>)
        ensures
            messages@ == old(self).outgoing(),
            final(self).outgoing() == Seq::<Outgoing<M>>::empty(),
            final(self).same_but_outgoing(old(self)),
    {
        let mut messages: Vec<Outgoing<M>> = Vec::new();
        core::mem::swap(&mut self.scheduled_messages, &mut messages);
        messages
    }

    /// Hands over the timers that were asked for and leaves none waiting.
    pub fn drain_timers(&mut self) -> (timers: Vec<(TimerId, Jiffies)>)
        ensures
            timers@ == old(self).timers(),
            final(self).timers() == Seq::<(TimerId, Jiffies)>::empty(),
            final(self).time() == old(self).time(),
            final(self).current() == old(self).current(),
            final(self).ids_issued() == old(self).ids_issued(),
            final(self).store() == old(self).store(),
            final(self).topology() == old(self).topology(),
            final(self).outgoing() == old(self).outgoing(),
    {
        let mut timers: Vec<(TimerId, Jiffies)> = Vec::new();
        core::mem::swap(&mut self.scheduled_timers, &mut timers);
        timers
    }
}

/// What a process needs of its surroundings to send messages.
pub trait Access<M: Message> {
    /// What was asked to be sent, in the order in which it was asked for.
    spec fn asked(&self) -> Seq<(Destination, M)>;

    /// The instant that the surroundings show.
    spec fn instant(&self) -> Jiffies;

    /// Asks for `message` to be sent to every process of the run.
    fn broadcast(&mut self, message: M)
        ensures
            final(self).asked() == old(self).asked().push((Destination::Broadcast, message)),
            final(self).instant() == old(self).instant(),
    ;

    /// Asks for `message` to be sent to the process with rank `to`.
    fn send_to(&mut self, to: Rank, message: M)
        ensures
            final(self).asked() == old(self).asked().push((Destination::To(to), message)),
            final(self).instant() == old(self).instant(),
    ;

    /// Asks for `message` to be sent to the process itself.
    fn send_self(&mut self, message: M)
        ensures
            final(self).asked() == old(self).asked().push((Destination::SendSelf, message)),
            final(self).instant() == old(self).instant(),
    ;

    /// The current instant.
    fn current_time(&self) -> (present: Jiffies)
        ensures
            present == self.instant(),
    ;
}

impl<M: Message> Access<M> for Context<M> {
    open spec fn asked(&self) -> Seq<(Destination, M)> {
        Seq::new(
            self.outgoing().len(),
            |i: int| (self.outgoing()[i].destination, *self.outgoing()[i].message),
        )
    }

    open spec fn instant(&self) -> Jiffies {
        self.time()
    }

    fn broadcast(&mut self, message: M) {
        self.stage(Destination::Broadcast, message);
        assert(self.outgoing().drop_last() == old(self).outgoing());
        assert(self.asked() =~= old(self).asked().push((Destination::Broadcast, message)));
    }

    fn send_to(&mut self, to: Rank, message: M) {
        self.stage(Destination::To(to), message);
        assert(self.outgoing().drop_last() == old(self).outgoing());
        assert(self.asked() =~= old(self).asked().push((Destination::To(to), message)));
    }

    fn send_self(&mut self, message: M) {
        self.stage(Destination::SendSelf, message);
        assert(self.outgoing().drop_last() == old(self).outgoing());
        assert(self.asked() =~= old(self).asked().push((Destination::SendSelf, message)));
    }

    fn current_time(&self) -> (present: Jiffies) {
        self.present
    }
}

} // verus!
