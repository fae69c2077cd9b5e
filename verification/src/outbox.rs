//! Messages that a scene sends back to the event bus.
use crate::message::{Envelope, Message, Payload};
use vstd::prelude::*;

verus! {

/// A list of messages you can send back to the event bus.
pub struct Outbox<P> {
    pub(crate) pending: Vec<Envelope<P>>,
}

impl<P> Outbox<P> {
    /// The messages waiting to be delivered, oldest first.
    pub closed spec fn spec_pending(&self) -> Seq<Envelope<P>> {
        self.pending@
    }

    pub fn new() -> (o: Self)
        ensures
            o.spec_pending() == Seq::<Envelope<P>>::empty(),
    {
        Outbox { pending: Vec::new() }
    }

    /// Appends an already erased message.
    pub fn push(&mut self, env: Envelope<P>)
        ensures
            final(self).spec_pending() == old(self).spec_pending().push(env),
    {
        self.pending.push(env);
    }

    /// Hands out the pending messages, oldest first, and leaves the outbox empty.
    pub fn take_pending(&mut self) -> (v: Vec<Envelope<P>>)
        ensures
            v@ == old(self).spec_pending(),
            final(self).spec_pending() == Seq::<Envelope<P>>::empty(),
    {
        let mut v = Vec::new();
        std::mem::swap(&mut v, &mut self.pending);
        v
    }
}

impl<P: Payload> Outbox<P> {
    /// Erases `msg` and appends it.
    pub fn emit<T: Message>(&mut self, msg: T)
        ensures
            final(self).spec_pending().len() == old(self).spec_pending().len() + 1,
            final(self).spec_pending().drop_last() == old(self).spec_pending(),
            call_ensures(P::erase::<T>, (msg,), final(self).spec_pending().last().payload),
    {
        let env = Envelope::new(msg);
        self.pending.push(env);
    }
}

} // verus!
