//! The runtime: the registry of actors, the mailboxes, the delayed-delivery
//! queue, and the phases of one tick.

use crate::actor::{Action, Actor, Context, Message, Millis, Tag};
use crate::tagmap::TagMap;
use std::collections::VecDeque;
use vstd::prelude::*;

verus! {

/// The runtime's tables and the actions waiting to be drained, as
/// mathematical values. Tags stand in it by their views.
pub struct Model<T: View, A, M> {
    /// The live actors.
    pub registry: Map<T::V, A>,
    /// The undelivered messages of each tag that was ever sent to, oldest
    /// first.
    pub mailboxes: Map<T::V, Seq<M>>,
    /// The tags that have a mailbox, in the order in which the mailboxes
    /// were made.
    pub order: Seq<T>,
    /// The scheduled deliveries `(deadline, tag, message)`, in the order in
    /// which they were scheduled.
    pub delayed: Seq<(Millis, T, M)>,
    /// The submitted actions that no drain has applied yet, oldest first.
    pub outbox: Seq<Action<T, A, M>>,
}

/// The deadline of a delivery scheduled at `now` with delay `delay`: their
/// sum, or the largest time where the sum is beyond it.
pub open spec fn due_time(now: Millis, delay: Millis) -> Millis {
    if now + delay > u64::MAX {
        u64::MAX
    } else {
        (now + delay) as u64
    }
}

/// The tables after one action was applied at tick time `now`.
pub open spec fn applied<T: Tag, A, M>(m: Model<T, A, M>, action: Action<T, A, M>, now: Millis) -> Model<
    T,
    A,
    M,
> {
    match action {
        Action::Bind(t, a) => Model { registry: m.registry.insert(t@, a), ..m },
        Action::Send(t, msg) => if m.mailboxes.contains_key(t@) {
            Model { mailboxes: m.mailboxes.insert(t@, m.mailboxes[t@].push(msg)), ..m }
        } else {
            Model {
                mailboxes: m.mailboxes.insert(t@, seq![msg]),
                order: m.order.push(t),
                ..m
            }
        },
        Action::Post(t, msg, delay) => Model {
            delayed: m.delayed.push((due_time(now, delay), t, msg)),
            ..m
        },
        Action::Stop(t) => Model { registry: m.registry.remove(t@), ..m },
    }
}

/// The tables after every waiting action was applied, oldest first, at tick
/// time `now`. Nothing is left waiting.
pub open spec fn drained<T: Tag, A, M>(m: Model<T, A, M>, now: Millis) -> Model<T, A, M>
    decreases m.outbox.len(),
{
    if m.outbox.len() == 0 {
        m
    } else {
        drained(Model { outbox: m.outbox.drop_first(), ..applied(m, m.outbox[0], now) }, now)
    }
}

/// The tables after `msg` was handed to the actor bound to `tag`: the actor
/// has reacted and what it submitted is waiting. Without such an actor
/// nothing changes.
pub open spec fn delivered<T: Tag, M: Message, A: Actor<T = T, M = M>>(
    m: Model<T, A, M>,
    tag: T,
    now: Millis,
    msg: M,
) -> Model<T, A, M> {
    if m.registry.contains_key(tag@) {
        Model {
            registry: m.registry.insert(tag@, m.registry[tag@].reacted(tag, now, msg)),
            outbox: m.outbox + m.registry[tag@].emitted(tag, now, msg),
            ..m
        }
    } else {
        m
    }
}

/// The position of the delivery that fires first: the one with the least
/// deadline, and among several of them the one scheduled first.
pub open spec fn earliest<K, M>(s: Seq<(Millis, K, M)>) -> int
    decreases s.len(),
{
    if s.len() <= 1 {
        0
    } else {
        let r = earliest(s.drop_last());
        if s.last().0 < s[r].0 {
            s.len() - 1
        } else {
            r
        }
    }
}

/// The tables after every scheduled delivery with a deadline of at most
/// `now` has fired, in ascending order of deadline.
pub open spec fn fired<T: Tag, M: Message, A: Actor<T = T, M = M>>(
    m: Model<T, A, M>,
    now: Millis,
) -> Model<T, A, M>
    decreases m.delayed.len(),
{
    let i = earliest(m.delayed);
    if 0 <= i < m.delayed.len() && m.delayed[i].0 <= now {
        let e = m.delayed[i];
        fired(delivered(Model { delayed: m.delayed.remove(i), ..m }, e.1, now, e.2), now)
    } else {
        m
    }
}

/// The tables after the first message of `tag`'s mailbox, if it has one,
/// was taken out and handed to `tag`'s actor.
pub open spec fn dispatched_one<T: Tag, M: Message, A: Actor<T = T, M = M>>(
    m: Model<T, A, M>,
    tag: T,
    now: Millis,
) -> Model<T, A, M> {
    if m.mailboxes.contains_key(tag@) && m.mailboxes[tag@].len() > 0 {
        delivered(
            Model { mailboxes: m.mailboxes.insert(tag@, m.mailboxes[tag@].drop_first()), ..m },
            tag,
            now,
            m.mailboxes[tag@][0],
        )
    } else {
        m
    }
}

/// The tables after one message was dispatched for each tag of `tags` in
/// turn.
pub open spec fn dispatched_in<T: Tag, M: Message, A: Actor<T = T, M = M>>(
    m: Model<T, A, M>,
    tags: Seq<T>,
    now: Millis,
) -> Model<T, A, M>
    decreases tags.len(),
{
    if tags.len() == 0 {
        m
    } else {
        dispatched_in(dispatched_one(m, tags[0], now), tags.drop_first(), now)
    }
}

/// The tables after one pass over the mailboxes.
pub open spec fn dispatched<T: Tag, M: Message, A: Actor<T = T, M = M>>(
    m: Model<T, A, M>,
    now: Millis,
) -> Model<T, A, M> {
    dispatched_in(m, m.order, now)
}

/// The tables after one whole tick at time `now`: the drain, then the
/// scheduled deliveries that are due, then one pass over the mailboxes.
pub open spec fn ticked<T: Tag, M: Message, A: Actor<T = T, M = M>>(
    m: Model<T, A, M>,
    now: Millis,
) -> Model<T, A, M> {
    dispatched(fired(drained(m, now), now), now)
}

/// The tables after one tick at each of `times` in turn.
pub open spec fn ran<T: Tag, M: Message, A: Actor<T = T, M = M>>(
    m: Model<T, A, M>,
    times: Seq<Millis>,
) -> Model<T, A, M>
    decreases times.len(),
{
    if times.len() == 0 {
        m
    } else {
        ticked(ran(m, times.drop_last()), times.last())
    }
}

/// The views of `tags`, in their order.
pub open spec fn views<T: View>(tags: Seq<T>) -> Seq<T::V> {
    tags.map_values(|t: T| t@)
}

/// Whether the mailboxes and their order agree: the order names each tag
/// that has a mailbox, once.
pub open spec fn consistent<T: View, A, M>(m: Model<T, A, M>) -> bool {
    &&& views(m.order).no_duplicates()
    &&& forall|k: T::V| m.mailboxes.contains_key(k) <==> views(m.order).contains(k)
}

/// Whether no actor is left.
pub open spec fn at_rest<T: View, A, M>(m: Model<T, A, M>) -> bool {
    m.registry == Map::<T::V, A>::empty()
}

/// Whether a run that ticks at each of `times` goes on up to the last of
/// them: no tick before the last leaves the runtime without actors.
pub open spec fn goes_on<T: Tag, M: Message, A: Actor<T = T, M = M>>(
    m: Model<T, A, M>,
    times: Seq<Millis>,
) -> bool {
    forall|j: int| 0 < j < times.len() ==> !at_rest(#[trigger] ran(m, times.take(j)))
}

/// The actor runtime.
pub struct System<T, A, M> {
    actors: TagMap<T, A>,
    queues: TagMap<T, VecDeque<M>>,
    posted: Vec<(Millis, T, M)>,
    millis: Millis,
}

impl<T: Tag, M: Message, A: Actor<T = T, M = M>> Default for System<T, A, M> {
    /// A runtime without actors, mailboxes or scheduled deliveries, at time
    /// zero.
    fn default() -> (sys: Self)
        ensures
            sys.wf(),
            sys.tick_time() == 0,
            sys.state().registry == Map::<T::V, A>::empty(),
            sys.state().mailboxes == Map::<T::V, Seq<M>>::empty(),
            sys.state().order == Seq::<T>::empty(),
            sys.state().delayed == Seq::<(Millis, T, M)>::empty(),
    {
        let sys = System { actors: TagMap::new(), queues: TagMap::new(), posted: Vec::new(), millis: 0 };
        assert(sys.state().mailboxes =~= Map::<T::V, Seq<M>>::empty());
        sys
    }
}

impl<T: Tag, M: Message, A: Actor<T = T, M = M>> System<T, A, M> {
    /// The tables are well formed: no tag has two actors or two mailboxes.
    pub closed spec fn wf(&self) -> bool {
        self.actors.wf() && self.queues.wf()
    }

    /// The time of the current tick.
    pub closed spec fn tick_time(&self) -> Millis {
        self.millis
    }

    /// The runtime's tables, with nothing waiting to be drained.
    pub closed spec fn state(&self) -> Model<T, A, M> {
        Model {
            registry: self.actors@,
            mailboxes: self.queues@.map_values(|q: VecDeque<M>| q@),
            order: self.queues.keys@,
            delayed: self.posted@,
            outbox: Seq::empty(),
        }
    }

    /// The runtime's tables together with the actions that wait in a
    /// context.
    pub open spec fn world(&self, outbox: Seq<Action<T, A, M>>) -> Model<T, A, M> {
        Model { outbox, ..self.state() }
    }

    /// The tables of a well-formed runtime are consistent.
    pub proof fn lemma_consistent(&self)
        requires
            self.wf(),
        ensures
            consistent(self.state()),
    {
        let m = self.state();
        let v = views(m.order);
        assert forall|i: int, j: int| 0 <= i < v.len() && 0 <= j < v.len() && i != j implies v[i]
            != v[j] by {
            if i < j {
                assert(self.queues.keys[i]@ != self.queues.keys[j]@);
            } else {
                assert(self.queues.keys[j]@ != self.queues.keys[i]@);
            }
        }
        assert forall|k: T::V| m.mailboxes.contains_key(k) <==> v.contains(k) by {
            if m.mailboxes.contains_key(k) {
                let i = choose|i: int| self.queues.holds(i, k);
                assert(v[i] == k);
            }
            if v.contains(k) {
                let i = choose|i: int| 0 <= i < v.len() && v[i] == k;
                assert(self.queues.holds(i, k));
            }
        }
    }

    /// A handle for submitting actions, with nothing pending.
    pub fn context(&self) -> (ctx: Context<T, A, M>)
        ensures
            ctx.pending() == Seq::<Action<T, A, M>>::empty(),
            ctx.tick_time() == 0,
    {
        Context::new()
    }

    /// Applies one action to the tables. No actor runs.
    pub fn apply(&mut self, action: Action<T, A, M>)
        requires
            old(self).wf(),
        ensures
            final(self).wf(),
            final(self).tick_time() == old(self).tick_time(),
            final(self).state() == applied(old(self).state(), action, old(self).tick_time()),
    {
        match action {
            Action::Bind(tag, actor) => {
                self.actors.put(tag, actor);
                assert(self.state().mailboxes =~= old(self).state().mailboxes);
            },
            Action::Send(tag, msg) => {
                match self.queues.find(&tag) {
                    Some(i) => {
                        let mut queue = self.queues.replace_at(i, VecDeque::new());
                        queue.push_back(msg);
                        let _ = self.queues.replace_at(i, queue);
                        assert(self.state().mailboxes =~= old(self).state().mailboxes.insert(
                            tag@,
                            old(self).state().mailboxes[tag@].push(msg),
                        ));
                    },
                    None => {
                        let mut queue: VecDeque<M> = VecDeque::new();
                        queue.push_back(msg);
                        assert(queue@ =~= seq![msg]);
                        self.queues.put(tag, queue);
                        assert(self.state().mailboxes =~= old(self).state().mailboxes.insert(
                            tag@,
                            seq![msg],
                        ));
                    },
                }
            },
            Action::Post(tag, msg, delay) => {
                let deadline = self.millis.saturating_add(delay);
                self.posted.push((deadline, tag, msg));
            },
            Action::Stop(tag) => {
                let _ = self.actors.take(&tag);
                assert(self.state().mailboxes =~= old(self).state().mailboxes);
            },
        }
    }

    /// The drain phase: applies every action that waits in `ctx`, oldest
    /// first, and leaves none waiting. No actor runs.
    pub fn handle_actions(&mut self, ctx: &mut Context<T, A, M>)
        requires
            old(self).wf(),
        ensures
            final(self).wf(),
            final(self).tick_time() == old(self).tick_time(),
            final(ctx).tick_time() == old(ctx).tick_time(),
            final(self).world(final(ctx).pending()) == drained(
                old(self).world(old(ctx).pending()),
                old(self).tick_time(),
            ),
    {
        let mut actions = ctx.take_pending();
        while actions.len() > 0
            invariant
                self.wf(),
                self.tick_time() == old(self).tick_time(),
                drained(self.world(actions@), self.tick_time()) == drained(
                    old(self).world(old(ctx).pending()),
                    old(self).tick_time(),
                ),
            decreases actions.len(),
        {
            let ghost before = self.world(actions@);
            let action = actions.remove(0);
            self.apply(action);
            assert(self.world(actions@) == (Model {
                outbox: before.outbox.drop_first(),
                ..applied(before, before.outbox[0], self.tick_time())
            })) by {
                assert(actions@ =~= before.outbox.drop_first());
            }
        }
        assert(actions@ =~= ctx.pending());
    }

    /// Hands `msg` to the actor bound to `tag`. Where no actor is bound to
    /// it, the message is dropped and nothing changes.
    pub fn deliver(&mut self, ctx: &mut Context<T, A, M>, tag: &T, msg: M)
        requires
            old(self).wf(),
        ensures
            final(self).wf(),
            final(self).tick_time() == old(self).tick_time(),
            final(ctx).tick_time() == old(ctx).tick_time(),
            final(self).world(final(ctx).pending()) == delivered(
                old(self).world(old(ctx).pending()),
                *tag,
                old(ctx).tick_time(),
                msg,
            ),
    {
        match self.actors.take(tag) {
            Some(mut actor) => {
                actor.act(tag, ctx, msg);
                self.actors.put(tag.duplicate(), actor);
                assert(self.actors@ =~= old(self).actors@.insert(tag@, actor));
            },
            None => {
                assert(self.actors@ =~= old(self).actors@);
            },
        }
    }

    /// The position of the scheduled delivery that fires next, if one is due
    /// at the current tick time.
    pub fn next_due(&self) -> (r: Option<usize>)
        ensures
            match r {
                Some(i) => i == earliest(self.state().delayed) && i < self.state().delayed.len()
                    && self.state().delayed[i as int].0 <= self.tick_time(),
                None => self.state().delayed.len() == 0 || self.state().delayed[earliest(
                    self.state().delayed,
                )].0 > self.tick_time(),
            },
    {
        if self.posted.len() == 0 {
            return None;
        }
        let ghost delayed = self.state().delayed;
        let mut best: usize = 0;
        let mut i: usize = 1;
        assert(delayed.take(1).len() == 1);
        while i < self.posted.len()
            invariant
                delayed == self.state().delayed,
                delayed.len() == self.posted.len(),
                0 <= best < i <= self.posted.len(),
                best == earliest(delayed.take(i as int)),
            decreases self.posted.len() - i,
        {
            proof {
                let next = delayed.take(i + 1);
                assert(next.drop_last() =~= delayed.take(i as int));
                assert(next.last() == delayed[i as int]);
                assert(next[best as int] == delayed[best as int]);
            }
            if self.posted[i].0 < self.posted[best].0 {
                best = i;
            }
            i += 1;
        }
        assert(delayed.take(i as int) =~= delayed);
        if self.posted[best].0 <= self.millis {
            Some(best)
        } else {
            None
        }
    }

    /// The timer phase: fires every scheduled delivery whose deadline is at
    /// most the current tick time, the least deadline first, and removes it
    /// from the queue. The others stay.
    pub fn handle_posts(&mut self, ctx: &mut Context<T, A, M>)
        requires
            old(self).wf(),
        ensures
            final(self).wf(),
            final(self).tick_time() == old(self).tick_time(),
            final(ctx).tick_time() == old(self).tick_time(),
            final(self).world(final(ctx).pending()) == fired(
                old(self).world(old(ctx).pending()),
                old(self).tick_time(),
            ),
    {
        ctx.set_now(self.millis);
        let mut next = self.next_due();
        while next.is_some()
            invariant
                self.wf(),
                self.tick_time() == old(self).tick_time(),
                ctx.tick_time() == self.tick_time(),
                match next {
                    Some(i) => i == earliest(self.state().delayed) && i
                        < self.state().delayed.len() && self.state().delayed[i as int].0
                        <= self.tick_time(),
                    None => self.state().delayed.len() == 0 || self.state().delayed[earliest(
                        self.state().delayed,
                    )].0 > self.tick_time(),
                },
                fired(self.world(ctx.pending()), self.tick_time()) == fired(
                    old(self).world(old(ctx).pending()),
                    old(self).tick_time(),
                ),
            decreases self.posted.len(),
        {
            let i = next.unwrap();
            let ghost before = self.world(ctx.pending());
            let (_, tag, msg) = self.posted.remove(i);
            assert(self.world(ctx.pending()) == (Model {
                delayed: before.delayed.remove(i as int),
                ..before
            }));
            self.deliver(ctx, &tag, msg);
            next = self.next_due();
        }
    }

    /// The dispatch phase: one pass over the mailboxes. Each mailbox that
    /// holds a message loses its first one, which is handed to the tag's
    /// actor, or dropped where the tag has none.
    pub fn handle_actors(&mut self, ctx: &mut Context<T, A, M>)
        requires
            old(self).wf(),
        ensures
            final(self).wf(),
            final(self).tick_time() == old(self).tick_time(),
            final(ctx).tick_time() == old(self).tick_time(),
            final(self).world(final(ctx).pending()) == dispatched(
                old(self).world(old(ctx).pending()),
                old(self).tick_time(),
            ),
    {
        ctx.set_now(self.millis);
        let ghost tags = self.state().order;
        let n = self.queues.len();
        let mut i: usize = 0;
        assert(tags.skip(0) =~= tags);
        while i < n
            invariant
                self.wf(),
                self.tick_time() == old(self).tick_time(),
                ctx.tick_time() == self.tick_time(),
                self.state().order == tags,
                tags.len() == n,
                i <= n,
                dispatched_in(self.world(ctx.pending()), tags.skip(i as int), self.tick_time())
                    == dispatched_in(
                    old(self).world(old(ctx).pending()),
                    tags,
                    old(self).tick_time(),
                ),
            decreases n - i,
        {
            let ghost before = self.world(ctx.pending());
            let ghost k = tags[i as int]@;
            proof {
                self.queues.lemma_position(i as int);
                assert(tags.skip(i as int)[0] == tags[i as int]);
                assert(tags.skip(i as int).drop_first() =~= tags.skip(i + 1));
            }
            let mut queue = self.queues.replace_at(i, VecDeque::new());
            let head = queue.pop_front();
            let _ = self.queues.replace_at(i, queue);
            match head {
                Some(msg) => {
                    assert(self.world(ctx.pending()) == (Model {
                        mailboxes: before.mailboxes.insert(k, before.mailboxes[k].drop_first()),
                        ..before
                    })) by {
                        assert(queue@ =~= before.mailboxes[k].drop_first());
                        assert(self.state().mailboxes =~= before.mailboxes.insert(
                            k,
                            before.mailboxes[k].drop_first(),
                        ));
                    }
                    let tag = self.queues.key(i).duplicate();
                    self.deliver(ctx, &tag, msg);
                },
                None => {
                    assert(self.world(ctx.pending()) == before) by {
                        assert(self.state().mailboxes =~= before.mailboxes);
                    }
                },
            }
            i += 1;
        }
    }

    /// One tick at time `now`: the drain phase, the timer phase and the
    /// dispatch phase. Says whether no actor is left.
    pub fn tick(&mut self, ctx: &mut Context<T, A, M>, now: Millis) -> (done: bool)
        requires
            old(self).wf(),
        ensures
            final(self).wf(),
            final(self).tick_time() == now,
            final(ctx).tick_time() == now,
            final(self).world(final(ctx).pending()) == ticked(
                old(self).world(old(ctx).pending()),
                now,
            ),
            done == (final(self).state().registry == Map::<T::V, A>::empty()),
    {
        self.millis = now;
        ctx.set_now(now);
        assert(self.world(ctx.pending()) == old(self).world(old(ctx).pending()));
        self.handle_actions(ctx);
        self.handle_posts(ctx);
        self.handle_actors(ctx);
        self.actors.is_empty()
    }

    /// The main loop: ticks at the times that `clock` gives, and stops after
    /// the first tick that leaves no actor, or after `limit` ticks. Says
    /// whether it stopped because no actor was left.
    pub fn run<F: Fn() -> Millis>(
        &mut self,
        ctx: &mut Context<T, A, M>,
        clock: F,
        limit: u64,
    ) -> (done: bool)
        requires
            old(self).wf(),
            clock.requires(()),
        ensures
            final(self).wf(),
            exists|times: Seq<Millis>|
                {
                    &&& times.len() <= limit
                    &&& forall|j: int|
                        0 <= j < times.len() ==> clock.ensures((), #[trigger] times[j])
                    &&& goes_on(old(self).world(old(ctx).pending()), times)
                    &&& final(self).world(final(ctx).pending()) == ran(
                        old(self).world(old(ctx).pending()),
                        times,
                    )
                    &&& done == (times.len() > 0 && at_rest(final(self).state()))
                    &&& final(self).tick_time() == if times.len() > 0 {
                        times.last()
                    } else {
                        old(self).tick_time()
                    }
                    &&& final(ctx).tick_time() == if times.len() > 0 {
                        times.last()
                    } else {
                        old(ctx).tick_time()
                    }
                    &&& !done ==> times.len() == limit
                },
    {
        let ghost start = self.world(ctx.pending());
        let ghost mut times: Seq<Millis> = Seq::empty();
        let mut count: u64 = 0;
        let mut done = false;
        while !done && count < limit
            invariant
                self.wf(),
                clock.requires(()),
                times.len() == count,
                count <= limit,
                forall|j: int| 0 <= j < times.len() ==> clock.ensures((), #[trigger] times[j]),
                goes_on(start, times),
                self.world(ctx.pending()) == ran(start, times),
                done == (times.len() > 0 && at_rest(self.state())),
                self.tick_time() == if times.len() > 0 {
                    times.last()
                } else {
                    old(self).tick_time()
                },
                ctx.tick_time() == if times.len() > 0 {
                    times.last()
                } else {
                    old(ctx).tick_time()
                },
            decreases limit - count,
        {
            let now = clock();
            let ghost earlier = times;
            done = self.tick(ctx, now);
            proof {
                times = earlier.push(now);
                assert(times.drop_last() =~= earlier);
                assert forall|j: int| 0 < j < times.len() implies !at_rest(
                    #[trigger] ran(start, times.take(j)),
                ) by {
                    if j < earlier.len() {
                        assert(times.take(j) =~= earlier.take(j));
                    } else {
                        assert(times.take(j) =~= earlier);
                    }
                }
            }
            count += 1;
        }
        done
    }
}

} // verus!
