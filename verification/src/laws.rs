//! What holds of the runtime's tables over every tick, proved from the
//! definitions of the phases.

use crate::actor::{Action, Actor, Message, Millis, Tag};
use crate::system::{
    applied, consistent, delivered, dispatched, dispatched_in, dispatched_one, drained, due_time,
    earliest, fired, ticked, views, Model,
};
use vstd::prelude::*;

verus! {

/// What is left of a mailbox after one pass: all but its first message.
pub open spec fn rest<M>(q: Seq<M>) -> Seq<M> {
    if q.len() > 0 {
        q.drop_first()
    } else {
        q
    }
}

/// Whether the action binds or stops the tag with view `k`.
pub open spec fn rebinds<T: Tag, A, M>(action: Action<T, A, M>, k: T::V) -> bool {
    match action {
        Action::Bind(t, _) => t@ == k,
        Action::Stop(t) => t@ == k,
        _ => false,
    }
}

/// The scheduled deliveries of `s` that are not yet due at `now`, in order.
pub open spec fn not_due<K, M>(s: Seq<(Millis, K, M)>, now: Millis) -> Seq<(Millis, K, M)> {
    s.filter(|e: (Millis, K, M)| e.0 > now)
}

/// Sending to, posting to or stopping a tag that has no actor changes no
/// actor and binds none, so it cannot keep the runtime from coming to rest;
/// and a message that reaches such a tag is dropped without a trace.
pub proof fn unbound_tag_is_inert<T: Tag, M: Message, A: Actor<T = T, M = M>>(
    m: Model<T, A, M>,
    tag: T,
    msg: M,
    delay: Millis,
    now: Millis,
)
    requires
        !m.registry.contains_key(tag@),
    ensures
        applied(m, Action::Send(tag, msg), now).registry == m.registry,
        applied(m, Action::Post(tag, msg, delay), now).registry == m.registry,
        applied(m, Action::Stop(tag), now).registry == m.registry,
        delivered(m, tag, now, msg) == m,
        dispatched_one(m, tag, now).registry == m.registry,
        dispatched_one(m, tag, now).outbox == m.outbox,
{
    assert(m.registry.remove(tag@) =~= m.registry);
}

/// Binding a tag leaves exactly the bound actor under it, whatever was
/// there before.
pub proof fn bind_replaces<T: Tag, A, M>(m: Model<T, A, M>, tag: T, actor: A, now: Millis)
    ensures
        applied(m, Action::Bind(tag, actor), now).registry.contains_key(tag@),
        applied(m, Action::Bind(tag, actor), now).registry[tag@] == actor,
        forall|k: T::V|
            k != tag@ ==> (applied(m, Action::Bind(tag, actor), now).registry.contains_key(k)
                <==> m.registry.contains_key(k)),
{
}

/// A drain that holds neither a bind nor a stop for a tag leaves the tag's
/// binding as it was: bound to the same actor, or unbound.
pub proof fn drain_keeps_binding<T: Tag, A, M>(m: Model<T, A, M>, k: T::V, now: Millis)
    requires
        forall|i: int| 0 <= i < m.outbox.len() ==> !rebinds(#[trigger] m.outbox[i], k),
    ensures
        drained(m, now).registry.contains_key(k) == m.registry.contains_key(k),
        m.registry.contains_key(k) ==> drained(m, now).registry[k] == m.registry[k],
    decreases m.outbox.len(),
{
    if m.outbox.len() > 0 {
        let first = m.outbox[0];
        assert(!rebinds(first, k));
        let next = Model { outbox: m.outbox.drop_first(), ..applied(m, first, now) };
        assert forall|i: int| 0 <= i < next.outbox.len() implies !rebinds(
            #[trigger] next.outbox[i],
            k,
        ) by {
            assert(next.outbox[i] == m.outbox[i + 1]);
        }
        drain_keeps_binding(next, k, now);
    }
}

/// The first of the scheduled deliveries to fire has the least deadline.
pub proof fn earliest_is_least<K, M>(s: Seq<(Millis, K, M)>)
    requires
        s.len() > 0,
    ensures
        0 <= earliest(s) < s.len(),
        forall|j: int| 0 <= j < s.len() ==> s[earliest(s)].0 <= (#[trigger] s[j]).0,
    decreases s.len(),
{
    if s.len() > 1 {
        let front = s.drop_last();
        earliest_is_least(front);
        assert forall|j: int| 0 <= j < s.len() implies s[earliest(s)].0 <= (#[trigger] s[j]).0 by {
            if j < front.len() {
                assert(front[j] == s[j]);
            }
        }
    }
}

proof fn filter_keeps_all<E>(s: Seq<E>, p: spec_fn(E) -> bool)
    requires
        forall|j: int| 0 <= j < s.len() ==> p(#[trigger] s[j]),
    ensures
        s.filter(p) == s,
    decreases s.len(),
{
    reveal(Seq::filter);
    if s.len() > 0 {
        filter_keeps_all(s.drop_last(), p);
        assert(s.drop_last().push(s.last()) =~= s);
    }
}

proof fn filter_skips_removed<E>(s: Seq<E>, p: spec_fn(E) -> bool, i: int)
    requires
        0 <= i < s.len(),
        !p(s[i]),
    ensures
        s.remove(i).filter(p) == s.filter(p),
{
    let one = seq![s[i]];
    assert(one.filter(p) =~= Seq::<E>::empty()) by {
        reveal_with_fuel(Seq::filter, 3);
        assert(one.drop_last() =~= Seq::<E>::empty());
    }
    assert(s =~= s.take(i) + (one + s.skip(i + 1)));
    assert(s.remove(i) =~= s.take(i) + s.skip(i + 1));
    Seq::filter_distributes_over_add(s.take(i), one + s.skip(i + 1), p);
    Seq::filter_distributes_over_add(one, s.skip(i + 1), p);
    Seq::filter_distributes_over_add(s.take(i), s.skip(i + 1), p);
    assert(one.filter(p) + s.skip(i + 1).filter(p) =~= s.skip(i + 1).filter(p));
}

/// A posted message is scheduled for the tick time of its drain plus its
/// delay; the timer phase fires no delivery before its deadline, and none
/// stays once its deadline has come. The phase binds and stops no actor and
/// touches no mailbox.
pub proof fn timers_fire_at_their_deadline<T: Tag, M: Message, A: Actor<T = T, M = M>>(
    m: Model<T, A, M>,
    now: Millis,
)
    ensures
        fired(m, now).delayed == not_due(m.delayed, now),
        fired(m, now).registry.dom() == m.registry.dom(),
        fired(m, now).mailboxes == m.mailboxes,
        fired(m, now).order == m.order,
    decreases m.delayed.len(),
{
    let p = |e: (Millis, T, M)| e.0 > now;
    let i = earliest(m.delayed);
    if m.delayed.len() > 0 {
        earliest_is_least(m.delayed);
    }
    if 0 <= i < m.delayed.len() && m.delayed[i].0 <= now {
        let e = m.delayed[i];
        let popped = Model { delayed: m.delayed.remove(i), ..m };
        let next = delivered(popped, e.1, now, e.2);
        timers_fire_at_their_deadline(next, now);
        filter_skips_removed(m.delayed, p, i);
        assert(next.registry.dom() =~= m.registry.dom());
    } else {
        assert forall|j: int| 0 <= j < m.delayed.len() implies p(#[trigger] m.delayed[j]) by {}
        filter_keeps_all(m.delayed, p);
    }
}

/// Applying a post schedules the message for the tick time plus the delay,
/// behind what was scheduled before.
pub proof fn post_schedules_after_its_delay<T: Tag, A, M>(
    m: Model<T, A, M>,
    tag: T,
    msg: M,
    delay: Millis,
    now: Millis,
)
    ensures
        applied(m, Action::Post(tag, msg, delay), now).delayed == m.delayed.push(
            (due_time(now, delay), tag, msg),
        ),
        due_time(now, delay) >= now,
        now + delay <= u64::MAX ==> due_time(now, delay) == now + delay,
{
}

/// One pass over some tags, none of them twice, takes the first message out
/// of the mailbox of each and leaves every other mailbox alone. It makes no
/// mailbox, binds and stops no actor and schedules nothing.
pub proof fn pass_takes_one_message_each<T: Tag, M: Message, A: Actor<T = T, M = M>>(
    m: Model<T, A, M>,
    tags: Seq<T>,
    now: Millis,
)
    requires
        views(tags).no_duplicates(),
    ensures
        dispatched_in(m, tags, now).mailboxes.dom() == m.mailboxes.dom(),
        forall|k: T::V| #[trigger]
            m.mailboxes.contains_key(k) ==> dispatched_in(m, tags, now).mailboxes[k] == if views(
                tags,
            ).contains(k) {
                rest(m.mailboxes[k])
            } else {
                m.mailboxes[k]
            },
        dispatched_in(m, tags, now).registry.dom() == m.registry.dom(),
        dispatched_in(m, tags, now).delayed == m.delayed,
        dispatched_in(m, tags, now).order == m.order,
    decreases tags.len(),
{
    if tags.len() > 0 {
        let k0 = tags[0]@;
        let next = dispatched_one(m, tags[0], now);
        let later = tags.drop_first();
        assert(views(later) =~= views(tags).drop_first());
        assert(views(later).no_duplicates());
        pass_takes_one_message_each(next, later, now);
        assert(next.mailboxes.dom() =~= m.mailboxes.dom());
        assert(next.registry.dom() =~= m.registry.dom());
        assert(views(tags)[0] == k0);
        assert(!views(later).contains(k0)) by {
            if views(later).contains(k0) {
                let j = choose|j: int| 0 <= j < later.len() && views(later)[j] == k0;
                assert(views(tags)[j + 1] == k0);
            }
        }
        assert forall|k: T::V| #[trigger] m.mailboxes.contains_key(k) implies dispatched_in(
            m,
            tags,
            now,
        ).mailboxes[k] == if views(tags).contains(k) {
            rest(m.mailboxes[k])
        } else {
            m.mailboxes[k]
        } by {
            assert(next.mailboxes.contains_key(k));
            if k != k0 {
                if views(tags).contains(k) {
                    let j = choose|j: int| 0 <= j < tags.len() && views(tags)[j] == k;
                    assert(views(later)[j - 1] == k);
                }
                if views(later).contains(k) {
                    let j = choose|j: int| 0 <= j < later.len() && views(later)[j] == k;
                    assert(views(tags)[j + 1] == k);
                }
            }
        }
    }
}

/// In one tick's dispatch phase each mailbox gives up at most one message:
/// its first, if it has any. What actors send during the phase reaches no
/// mailbox before a later drain.
pub proof fn one_dispatch_per_mailbox<T: Tag, M: Message, A: Actor<T = T, M = M>>(
    m: Model<T, A, M>,
    now: Millis,
)
    requires
        consistent(m),
    ensures
        dispatched(m, now).mailboxes.dom() == m.mailboxes.dom(),
        forall|k: T::V| #[trigger]
            m.mailboxes.contains_key(k) ==> dispatched(m, now).mailboxes[k] == rest(
                m.mailboxes[k],
            ),
{
    pass_takes_one_message_each(m, m.order, now);
}

/// Only the drain phase binds or stops an actor: after it, a tick's timer
/// and dispatch phases leave the set of bound tags as it is.
pub proof fn only_the_drain_changes_bindings<T: Tag, M: Message, A: Actor<T = T, M = M>>(
    m: Model<T, A, M>,
    now: Millis,
)
    requires
        consistent(m),
    ensures
        ticked(m, now).registry.dom() == drained(m, now).registry.dom(),
{
    let d = drained(m, now);
    timers_fire_at_their_deadline(d, now);
    let f = fired(d, now);
    drain_keeps_consistent(m, now);
    pass_takes_one_message_each(f, f.order, now);
}

/// An actor stays bound through a tick whose drain holds neither a bind nor
/// a stop for its tag, and a tag without an actor stays without one.
pub proof fn binding_lasts_until_rebound<T: Tag, M: Message, A: Actor<T = T, M = M>>(
    m: Model<T, A, M>,
    k: T::V,
    now: Millis,
)
    requires
        consistent(m),
        forall|i: int| 0 <= i < m.outbox.len() ==> !rebinds(#[trigger] m.outbox[i], k),
    ensures
        ticked(m, now).registry.contains_key(k) == m.registry.contains_key(k),
{
    drain_keeps_binding(m, k, now);
    only_the_drain_changes_bindings(m, now);
    assert(ticked(m, now).registry.dom().contains(k) == drained(m, now).registry.dom().contains(k));
}

/// What a tick delivers from a mailbox was in the mailbox when the tick's
/// drain ended: the mailbox is left with all but the first of the messages
/// that it held then. So what an actor sends during a tick is handed to no
/// actor before a later tick has drained it.
pub proof fn sent_messages_wait_for_a_later_tick<T: Tag, M: Message, A: Actor<T = T, M = M>>(
    m: Model<T, A, M>,
    now: Millis,
)
    requires
        consistent(m),
    ensures
        ticked(m, now).mailboxes.dom() == drained(m, now).mailboxes.dom(),
        forall|k: T::V| #[trigger]
            drained(m, now).mailboxes.contains_key(k) ==> ticked(m, now).mailboxes[k] == rest(
                drained(m, now).mailboxes[k],
            ),
        ticked(m, now).delayed == not_due(drained(m, now).delayed, now),
{
    let d = drained(m, now);
    drain_keeps_consistent(m, now);
    timers_fire_at_their_deadline(d, now);
    let f = fired(d, now);
    one_dispatch_per_mailbox(f, now);
    pass_takes_one_message_each(f, f.order, now);
}

/// Applying an action keeps the mailboxes and their order consistent.
pub proof fn apply_keeps_consistent<T: Tag, A, M>(
    m: Model<T, A, M>,
    action: Action<T, A, M>,
    now: Millis,
)
    requires
        consistent(m),
    ensures
        consistent(applied(m, action, now)),
{
    let n = applied(m, action, now);
    if let Action::Send(t, msg) = action {
        if !m.mailboxes.contains_key(t@) {
            let old_views = views(m.order);
            let new_views = views(n.order);
            assert(!old_views.contains(t@));
            assert(new_views =~= old_views.push(t@));
            assert forall|k: T::V| n.mailboxes.contains_key(k) <==> new_views.contains(k) by {
                if new_views.contains(k) {
                    let j = choose|j: int| 0 <= j < new_views.len() && new_views[j] == k;
                    if j < old_views.len() {
                        assert(old_views[j] == k);
                    }
                }
                if old_views.contains(k) {
                    let j = choose|j: int| 0 <= j < old_views.len() && old_views[j] == k;
                    assert(new_views[j] == k);
                }
                if k == t@ {
                    assert(new_views[old_views.len() as int] == k);
                }
            }
        } else {
            assert(n.mailboxes.dom() =~= m.mailboxes.dom());
        }
    }
}

/// A drain keeps the mailboxes and their order consistent.
pub proof fn drain_keeps_consistent<T: Tag, A, M>(m: Model<T, A, M>, now: Millis)
    requires
        consistent(m),
    ensures
        consistent(drained(m, now)),
    decreases m.outbox.len(),
{
    if m.outbox.len() > 0 {
        apply_keeps_consistent(m, m.outbox[0], now);
        let next = Model { outbox: m.outbox.drop_first(), ..applied(m, m.outbox[0], now) };
        drain_keeps_consistent(next, now);
    }
}

/// A whole tick keeps the mailboxes and their order consistent.
pub proof fn tick_keeps_consistent<T: Tag, M: Message, A: Actor<T = T, M = M>>(
    m: Model<T, A, M>,
    now: Millis,
)
    requires
        consistent(m),
    ensures
        consistent(ticked(m, now)),
{
    let d = drained(m, now);
    drain_keeps_consistent(m, now);
    timers_fire_at_their_deadline(d, now);
    let f = fired(d, now);
    pass_takes_one_message_each(f, f.order, now);
    let t = ticked(m, now);
    assert forall|k: T::V| t.mailboxes.contains_key(k) <==> views(t.order).contains(k) by {
        assert(t.mailboxes.dom().contains(k) == f.mailboxes.dom().contains(k));
    }
}

/// A message for one tag reaches no other: sending it changes no other
/// tag's mailbox, and delivering it changes no other tag's actor.
pub proof fn messages_stay_with_their_tag<T: Tag, M: Message, A: Actor<T = T, M = M>>(
    m: Model<T, A, M>,
    tag: T,
    msg: M,
    other: T::V,
    now: Millis,
)
    requires
        other != tag@,
    ensures
        applied(m, Action::Send(tag, msg), now).mailboxes.contains_key(other)
            == m.mailboxes.contains_key(other),
        m.mailboxes.contains_key(other) ==> applied(m, Action::Send(tag, msg), now).mailboxes[other]
            == m.mailboxes[other],
        applied(m, Action::Send(tag, msg), now).registry == m.registry,
        delivered(m, tag, now, msg).registry.contains_key(other) == m.registry.contains_key(
            other,
        ),
        m.registry.contains_key(other) ==> delivered(m, tag, now, msg).registry[other]
            == m.registry[other],
        delivered(m, tag, now, msg).mailboxes == m.mailboxes,
        dispatched_one(m, tag, now).registry.contains_key(other) == m.registry.contains_key(
            other,
        ),
        m.registry.contains_key(other) ==> dispatched_one(m, tag, now).registry[other]
            == m.registry[other],
{
}

/// Whether nothing is on its way to the tag with view `b` at time `now`: no
/// message waits in its mailbox and no scheduled delivery for it is due.
pub open spec fn nothing_for<T: Tag, A, M>(m: Model<T, A, M>, b: T::V, now: Millis) -> bool {
    &&& m.mailboxes.contains_key(b) ==> m.mailboxes[b].len() == 0
    &&& forall|i: int|
        0 <= i < m.delayed.len() && (#[trigger] m.delayed[i]).0 <= now ==> m.delayed[i].1@ != b
}

/// The timer phase leaves alone the actor of a tag for which no scheduled
/// delivery is due.
pub proof fn timers_leave_others_alone<T: Tag, M: Message, A: Actor<T = T, M = M>>(
    m: Model<T, A, M>,
    b: T::V,
    now: Millis,
)
    requires
        forall|i: int|
            0 <= i < m.delayed.len() && (#[trigger] m.delayed[i]).0 <= now ==> m.delayed[i].1@ != b,
    ensures
        fired(m, now).registry.contains_key(b) == m.registry.contains_key(b),
        m.registry.contains_key(b) ==> fired(m, now).registry[b] == m.registry[b],
    decreases m.delayed.len(),
{
    let i = earliest(m.delayed);
    if 0 <= i < m.delayed.len() && m.delayed[i].0 <= now {
        let e = m.delayed[i];
        let popped = Model { delayed: m.delayed.remove(i), ..m };
        let next = delivered(popped, e.1, now, e.2);
        assert(e.1@ != b);
        assert forall|j: int|
            0 <= j < next.delayed.len() && (#[trigger] next.delayed[j]).0 <= now implies next.delayed[j].1@
            != b by {
            if j < i {
                assert(next.delayed[j] == m.delayed[j]);
            } else {
                assert(next.delayed[j] == m.delayed[j + 1]);
            }
        }
        timers_leave_others_alone(next, b, now);
    }
}

/// A pass over the mailboxes leaves alone the actor of a tag whose mailbox
/// holds no message.
pub proof fn pass_leaves_others_alone<T: Tag, M: Message, A: Actor<T = T, M = M>>(
    m: Model<T, A, M>,
    tags: Seq<T>,
    b: T::V,
    now: Millis,
)
    requires
        m.mailboxes.contains_key(b) ==> m.mailboxes[b].len() == 0,
    ensures
        dispatched_in(m, tags, now).registry.contains_key(b) == m.registry.contains_key(b),
        m.registry.contains_key(b) ==> dispatched_in(m, tags, now).registry[b] == m.registry[b],
    decreases tags.len(),
{
    if tags.len() > 0 {
        let next = dispatched_one(m, tags[0], now);
        pass_leaves_others_alone(next, tags.drop_first(), b, now);
    }
}

/// Over a whole tick, messages for other tags never reach a tag's actor:
/// where the drain neither binds nor stops the tag and leaves nothing on its
/// way to it, the tick leaves the tag's actor exactly as it was.
pub proof fn tick_leaves_others_alone<T: Tag, M: Message, A: Actor<T = T, M = M>>(
    m: Model<T, A, M>,
    b: T::V,
    now: Millis,
)
    requires
        forall|i: int| 0 <= i < m.outbox.len() ==> !rebinds(#[trigger] m.outbox[i], b),
        nothing_for(drained(m, now), b, now),
    ensures
        ticked(m, now).registry.contains_key(b) == m.registry.contains_key(b),
        m.registry.contains_key(b) ==> ticked(m, now).registry[b] == m.registry[b],
{
    drain_keeps_binding(m, b, now);
    let d = drained(m, now);
    timers_leave_others_alone(d, b, now);
    timers_fire_at_their_deadline(d, now);
    let f = fired(d, now);
    pass_leaves_others_alone(f, f.order, b, now);
}

} // verus!
