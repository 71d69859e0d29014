//! Tags, messages, actions, the context that collects actions, and the
//! behaviour that an actor supplies.

use vstd::prelude::*;

verus! {

/// Time in milliseconds.
pub type Millis = u64;

/// One unit of domain protocol. Never changed after it was made.
pub trait Message: Sized + core::fmt::Debug + Clone + 'static {

}

/// The name of one actor. Two tags name the same actor exactly when their
/// views are equal.
pub trait Tag: View + Sized + Eq + core::hash::Hash + core::fmt::Debug + Clone + 'static {
    /// Whether both tags name the same actor.
    fn same(&self, other: &Self) -> (r: bool)
        ensures
            r == (self@ == other@),
    ;

    /// A copy of the tag.
    fn duplicate(&self) -> (r: Self)
        ensures
            r == *self,
    ;
}

impl Tag for String {
    fn same(&self, other: &Self) -> (r: bool) {
        *self == *other
    }

    fn duplicate(&self) -> (r: Self) {
        self.clone()
    }
}

/// A change to the runtime's tables, requested by an actor or by the
/// embedding program and applied when the runtime next drains its inbox.
#[derive(Debug)]
pub enum Action<T, A, M> {
    /// Registers the actor under the tag, replacing any actor bound to it.
    Bind(T, A),
    /// Appends the message to the tag's mailbox.
    Send(T, M),
    /// Schedules the message for the tag after a delay in milliseconds.
    Post(T, M, Millis),
    /// Removes the actor bound to the tag.
    Stop(T),
}

/// The handle through which actions are submitted. It buffers them in
/// arrival order until the runtime drains them, and carries the time of the
/// current tick.
pub struct Context<T, A, M> {
    outbox: Vec<Action<T, A, M>>,
    now: Millis,
}

impl<T, A, M> Context<T, A, M> {
    /// The actions submitted and not yet drained, oldest first.
    pub closed spec fn pending(&self) -> Seq<Action<T, A, M>> {
        self.outbox@
    }

    /// The tick time that the context carries.
    pub closed spec fn tick_time(&self) -> Millis {
        self.now
    }

    /// A context with nothing pending, at time zero.
    pub(crate) fn new() -> (ctx: Self)
        ensures
            ctx.pending() == Seq::<Action<T, A, M>>::empty(),
            ctx.tick_time() == 0,
    {
        Context { outbox: Vec::new(), now: 0 }
    }

    /// Sets the tick time; the pending actions stay.
    pub(crate) fn set_now(&mut self, now: Millis)
        ensures
            final(self).tick_time() == now,
            final(self).pending() == old(self).pending(),
    {
        self.now = now;
    }

    /// Hands out the pending actions, oldest first, and leaves none pending.
    pub(crate) fn take_pending(&mut self) -> (actions: Vec<Action<T, A, M>>)
        ensures
            actions@ == old(self).pending(),
            final(self).pending() == Seq::<Action<T, A, M>>::empty(),
            final(self).tick_time() == old(self).tick_time(),
    {
        let mut actions: Vec<Action<T, A, M>> = Vec::new();
        core::mem::swap(&mut self.outbox, &mut actions);
        actions
    }

    /// The tick time cached for the current tick.
    pub fn now(&self) -> (t: Millis)
        ensures
            t == self.tick_time(),
    {
        self.now
    }

    /// Submits `Bind(tag, actor)`.
    pub fn bind(&mut self, tag: T, actor: A)
        ensures
            final(self).pending() == old(self).pending().push(Action::Bind(tag, actor)),
            final(self).tick_time() == old(self).tick_time(),
    {
        self.outbox.push(Action::Bind(tag, actor));
    }

    /// Moves what is pending in `other` behind what is pending here, in its
    /// order, so that the actions of several handles reach the runtime
    /// through the one that is handed to its loop.
    pub fn absorb(&mut self, other: &mut Context<T, A, M>)
        ensures
            final(self).pending() == old(self).pending() + old(other).pending(),
            final(self).tick_time() == old(self).tick_time(),
            final(other).pending() == Seq::<Action<T, A, M>>::empty(),
            final(other).tick_time() == old(other).tick_time(),
    {
        self.outbox.append(&mut other.outbox);
    }

    /// Submits `Post(tag, msg, millis)`; the delay counts from the tick that
    /// drains the action.
    pub fn post(&mut self, tag: T, msg: M, millis: Millis)
        ensures
            final(self).pending() == old(self).pending().push(Action::Post(tag, msg, millis)),
            final(self).tick_time() == old(self).tick_time(),
    {
        self.outbox.push(Action::Post(tag, msg, millis));
    }
}

impl<T: Tag, A, M> Context<T, A, M> {
    /// Submits `Stop` for the actor that `tag` names.
    pub fn stop(&mut self, tag: &T)
        ensures
            final(self).pending() == old(self).pending().push(Action::Stop(*tag)),
            final(self).tick_time() == old(self).tick_time(),
    {
        self.outbox.push(Action::Stop(tag.duplicate()));
    }

    /// Submits `Send` of `msg` to the actor that `tag` names.
    pub fn send(&mut self, tag: &T, msg: M)
        ensures
            final(self).pending() == old(self).pending().push(Action::Send(*tag, msg)),
            final(self).tick_time() == old(self).tick_time(),
    {
        self.outbox.push(Action::Send(tag.duplicate(), msg));
    }
}

/// The behaviour of an actor: how it reacts to one message.
///
/// What `act` does is a function of the actor's state, the tag, the tick
/// time and the message: `reacted` names the state that it leaves and
/// `emitted` the actions that it submits. An actor defines both to say what
/// its `act` does; as they stand here they name values of which nothing is
/// known.
pub trait Actor: Sized + core::fmt::Debug {
    type T: Tag;

    type M: Message;

    /// The state in which `act` leaves the actor.
    open spec fn reacted(self, tag: Self::T, now: Millis, msg: Self::M) -> Self {
        arbitrary()
    }

    /// The actions that `act` submits, in order.
    open spec fn emitted(self, tag: Self::T, now: Millis, msg: Self::M) -> Seq<
        Action<Self::T, Self, Self::M>,
    > {
        arbitrary()
    }

    /// Reacts to `msg`: changes the actor's own state and submits actions
    /// through `ctx`. It neither changes the tick time nor touches what was
    /// pending before.
    fn act(&mut self, tag: &Self::T, ctx: &mut Context<Self::T, Self, Self::M>, msg: Self::M)
        ensures
            *final(self) == old(self).reacted(*tag, old(ctx).tick_time(), msg),
            final(ctx).pending() == old(ctx).pending() + old(self).emitted(
                *tag,
                old(ctx).tick_time(),
                msg,
            ),
            final(ctx).tick_time() == old(ctx).tick_time(),
    ;
}

} // verus!
