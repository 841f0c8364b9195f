//! Processes and the pool that holds them.

use std::rc::Rc;
use vstd::prelude::*;

use crate::context::Context;
use crate::timer::TimerId;
use crate::topology::Rank;

verus! {

/// What a process does. A process only ever acts inside one of these
/// callbacks, and only one callback runs at a time. What it asks for
/// through the context takes effect after the callback has returned.
pub trait ProcessHandle<M> {
    /// What starting makes of the process and of its surroundings: whether
    /// the process `self`, started in the surroundings `handed`, may come
    /// out as `after` and leave the surroundings as `left`.
    /// Of a process that does not say what it does, nothing is claimed.
    open spec fn started(
        &self,
        after: &Self,
        handed: &Context<M>,
        left: &Context<M>,
    ) -> bool {
        true
    }

    /// What a message makes of the process and of its surroundings:
    /// whether the process `self`, handed `message` from the process with
    /// rank `from` in the surroundings `handed`, may come out as `after`
    /// and leave the surroundings as `left`.
    /// Of a process that does not say what it does, nothing is claimed.
    open spec fn received(
        &self,
        after: &Self,
        handed: &Context<M>,
        left: &Context<M>,
        from: Rank,
        message: Rc<M>,
    ) -> bool {
        true
    }

    /// What a timer makes of the process and of its surroundings: whether
    /// the process `self`, told in the surroundings `handed` that its timer
    /// `id` fired, may come out as `after` and leave the surroundings as
    /// `left`.
    /// Of a process that does not say what it does, nothing is claimed.
    open spec fn fired(
        &self,
        after: &Self,
        handed: &Context<M>,
        left: &Context<M>,
        id: TimerId,
    ) -> bool {
        true
    }

    /// Called once, when the run starts.
    fn start(&mut self, ctx: &mut Context<M>)
        ensures
            old(self).started(final(self), old(ctx), final(ctx)),
    ;

    /// Called when a message from the process with rank `from` arrives.
    fn on_message(&mut self, ctx: &mut Context<M>, from: Rank, message: Rc<M>)
        ensures
            old(self).received(final(self), old(ctx), final(ctx), from, message),
    ;

    /// Called when the timer with identifier `id` fires.
    fn on_timer(&mut self, ctx: &mut Context<M>, id: TimerId)
        ensures
            old(self).fired(final(self), old(ctx), final(ctx), id),
    ;
}

/// What is handed to a process.
pub enum DScaleMessage<M> {
    /// A message from another process, or from itself.
    NetworkMessage(Rc<M>),
    /// One of its timers fired.
    Timer(TimerId),
}

/// The processes of a run. The process with rank `r` is the `r`-th that
/// was handed in; ranks start at one.
pub struct Nursery<P> {
    procs: Vec<P>,
}

impl<P> Nursery<P> {
    /// The number of processes.
    pub closed spec fn count(&self) -> nat {
        self.procs@.len()
    }

    /// The process with rank `rank`.
    pub closed spec fn process(&self, rank: Rank) -> P
        recommends
            1 <= rank <= self.count(),
    {
        self.procs@[rank - 1]
    }

    /// The pool of `procs`, ranked in their order.
    pub fn new(procs: Vec<P>) -> (nursery: Self)
        ensures
            nursery.count() == procs@.len(),
            forall|rank: Rank|
                1 <= rank <= procs@.len() ==> #[trigger] nursery.process(rank) == procs@[rank - 1],
    {
        Nursery { procs }
    }

    /// The number of processes.
    pub fn size(&self) -> (n: usize)
        ensures
            n == self.count(),
    {
        self.procs.len()
    }

    /// The ranks of the processes in rising order.
    pub fn keys(&self) -> (ranks: Vec<Rank>)
        ensures
            ranks@.len() == self.count(),
            forall|i: int| 0 <= i < ranks@.len() ==> ranks@[i] == i + 1,
    {
        let n = self.procs.len();
        let mut ranks: Vec<Rank> = Vec::new();
        let mut i: usize = 0;
        while i < n
            invariant
                i <= n,
                n == self.procs@.len(),
                ranks@.len() == i,
                forall|k: int| 0 <= k < i ==> ranks@[k] == k + 1,
            decreases n - i,
        {
            ranks.push(i + 1);
            i = i + 1;
        }
        ranks
    }

    /// Lets the process with rank `id` start. The process finds the
    /// surroundings as they are, with its own rank as the rank of the
    /// process whose callback runs. No other process is touched.
    pub fn start_single<M>(&mut self, ctx: &mut Context<M>, id: Rank) where P: ProcessHandle<M>
        requires
            1 <= id <= old(self).count(),
        ensures
            final(self).count() == old(self).count(),
            forall|other: Rank|
                1 <= other <= old(self).count() && other != id
                    ==> #[trigger] final(self).process(other) == old(self).process(other),
            old(self).process(id).started(
                &final(self).process(id),
                &old(ctx).with_current(id),
                final(ctx),
            ),
    {
        ctx.set_process(id);
        self.procs[id - 1].start(ctx);
    }

    /// Hands `m`, which comes from the process with rank `from`, to the
    /// process with rank `to`. The process finds the surroundings as they
    /// are, with its own rank as the rank of the process whose callback
    /// runs. No other process is touched.
    pub fn deliver<M>(
        &mut self,
        ctx: &mut Context<M>,
        from: Rank,
        to: Rank,
        m: DScaleMessage<M>,
    ) where P: ProcessHandle<M>

        requires
            1 <= to <= old(self).count(),
        ensures
            final(self).count() == old(self).count(),
            forall|other: Rank|
                1 <= other <= old(self).count() && other != to
                    ==> #[trigger] final(self).process(other) == old(self).process(other),
            match m {
                DScaleMessage::NetworkMessage(ptr) => old(self).process(to).received(
                    &final(self).process(to),
                    &old(ctx).with_current(to),
                    final(ctx),
                    from,
                    ptr,
                ),
                DScaleMessage::Timer(id) => old(self).process(to).fired(
                    &final(self).process(to),
                    &old(ctx).with_current(to),
                    final(ctx),
                    id,
                ),
            },
    {
        ctx.set_process(to);
        match m {
            DScaleMessage::NetworkMessage(ptr) => self.procs[to - 1].on_message(ctx, from, ptr),
            DScaleMessage::Timer(id) => self.procs[to - 1].on_timer(ctx, id),
        }
    }
}

} // verus!
