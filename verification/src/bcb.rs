//! Consistent broadcast: what it sends, and the surroundings it gives the
//! protocol that runs on top of it.

#![allow(non_snake_case)]

use vstd::prelude::*;

use crate::context::Access;
use crate::jiffies::Jiffies;
use crate::message::Destination;
use crate::message::Message;
use crate::topology::Rank;

verus! {

/// The name of a broadcast: the process that started it and its number
/// among the broadcasts of that process.
#[derive(Clone, Copy, Debug, PartialEq, Eq, Hash, Structural)]
pub struct BCBMessageId {
    pub process_id: Rank,
    pub message_id: usize,
}

/// A message of the consistent broadcast.
pub enum BCBMessage<M: Message> {
    /// Starts a broadcast of the given message.
    Initiate((BCBMessageId, M)),
    /// Signs a broadcast.
    Signature(BCBMessageId),
    /// Says that enough processes have signed a broadcast.
    Certificate(BCBMessageId),
    /// A message of the protocol on top that is not broadcast.
    Skip(M),
}

impl<M: Message> Message for BCBMessage<M> {
    open spec fn is_free() -> bool {
        true
    }

    /// The messages of the broadcast take nothing of the bandwidth,
    /// whatever the message inside would take.
    fn virtual_size(&self) -> (size: usize)
        ensures
            size == 0,
    {
        0
    }
}

/// The surroundings that the protocol on top sees. What it sends to one
/// process goes out at once, wrapped; what it broadcasts is kept for the
/// consistent broadcast to send.
pub struct BCBAccess<'a, M: Message, A: Access<BCBMessage<M>>> {
    scheduled_broadcasts: Vec<M>,
    outer_access: &'a mut A,
    log: Ghost<Seq<(Destination, M)>>,
}

impl<'a, M: Message, A: Access<BCBMessage<M>>> BCBAccess<'a, M, A> {
    /// The messages that the protocol on top has broadcast, in their
    /// order.
    pub closed spec fn kept(&self) -> Seq<M> {
        self.scheduled_broadcasts@
    }

    /// The surroundings underneath.
    pub closed spec fn outer(&self) -> A {
        *self.outer_access
    }

    /// The surroundings for the protocol on top, with nothing broadcast.
    pub fn Wrap(access: &'a mut A) -> (wrapped: Self)
        ensures
            wrapped.kept() == Seq::<M>::empty(),
            wrapped.outer() == *old(access),
            wrapped.asked() == Seq::<(Destination, M)>::empty(),
    {
        BCBAccess {
            scheduled_broadcasts: Vec::new(),
            outer_access: access,
            log: Ghost(Seq::empty()),
        }
    }

    /// Hands over the messages that the protocol on top has broadcast and
    /// keeps none.
    pub fn take_broadcasts(&mut self) -> (broadcasts: Vec<M>)
        ensures
            broadcasts@ == old(self).kept(),
            final(self).kept() == Seq::<M>::empty(),
            final(self).outer() == old(self).outer(),
            final(self).asked() == old(self).asked(),
    {
        let mut broadcasts: Vec<M> = Vec::new();
        core::mem::swap(&mut self.scheduled_broadcasts, &mut broadcasts);
        broadcasts
    }
}

impl<'a, M: Message, A: Access<BCBMessage<M>>> Access<M> for BCBAccess<'a, M, A> {
    closed spec fn asked(&self) -> Seq<(Destination, M)> {
        self.log@
    }

    closed spec fn instant(&self) -> Jiffies {
        self.outer_access.instant()
    }

    fn current_time(&self) -> (present: Jiffies) {
        self.outer_access.current_time()
    }

    fn send_to(&mut self, to: Rank, message: M)
        ensures
            final(self).kept() == old(self).kept(),
            final(self).outer().asked() == old(self).outer().asked().push(
                (Destination::To(to), BCBMessage::Skip(message)),
            ),
    {
        self.outer_access.send_to(to, BCBMessage::Skip(message));
        self.log = Ghost(self.log@.push((Destination::To(to), message)));
    }

    fn send_self(&mut self, message: M)
        ensures
            final(self).kept() == old(self).kept(),
            final(self).outer().asked() == old(self).outer().asked().push(
                (Destination::SendSelf, BCBMessage::Skip(message)),
            ),
    {
        self.outer_access.send_self(BCBMessage::Skip(message));
        self.log = Ghost(self.log@.push((Destination::SendSelf, message)));
    }

    fn broadcast(&mut self, message: M)
        ensures
            final(self).kept() == old(self).kept().push(message),
            final(self).outer() == old(self).outer(),
    {
        self.scheduled_broadcasts.push(message);
        self.log = Ghost(self.log@.push((Destination::Broadcast, message)));
    }
}

} // verus!
