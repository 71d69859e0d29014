//! A counting actor. Its first message starts the count; every further one
//! raises it and schedules the next after a pause, until the count is full;
//! then the actor passes through `Done` and stops itself.

use crate::actor::{Action, Actor, Context, Message, Millis};
use crate::system::{
    applied, at_rest, delivered, dispatched, dispatched_in, dispatched_one, drained, due_time,
    earliest, fired, ticked, Model,
};
use vstd::prelude::*;

verus! {

/// The one message of the counting protocol.
#[derive(Debug, Clone, Copy)]
pub enum Protocol {
    Empty,
}

impl Message for Protocol {

}

/// The states of the counting actor: before its first message, counting
/// (the count and the time of the last message), and done.
#[derive(Debug, PartialEq, Eq)]
pub enum State {
    Empty,
    Counter(usize, Millis),
    Done,
}

/// What the counting actor asks of the runtime after a message: to send the
/// message to itself, to post it to itself after a delay, or to stop it.
#[derive(Debug, PartialEq, Eq)]
pub enum Emit {
    SendSelf,
    PostSelf(Millis),
    StopSelf,
}

/// The count at which the actor is done.
pub const FULL: usize = 10;

/// The delay between two counted messages, in milliseconds.
pub const PAUSE: Millis = 100;

/// The state after a message at time `now`, and what the actor asks for.
pub open spec fn stepped(s: State, now: Millis) -> (State, Emit) {
    match s {
        State::Empty => (State::Counter(0, now), Emit::SendSelf),
        State::Counter(n, _) => if n == FULL {
            (State::Done, Emit::SendSelf)
        } else {
            (State::Counter((n + 1) as usize, now), Emit::PostSelf(PAUSE))
        },
        State::Done => (State::Done, Emit::StopSelf),
    }
}

/// Whether the count can still be raised.
pub open spec fn can_step(s: State) -> bool {
    s matches State::Counter(n, _) ==> n < usize::MAX
}

/// The action that the actor under `tag` submits for `e`, carrying `msg`.
pub open spec fn submitted(e: Emit, tag: String, msg: Protocol) -> Action<String, State, Protocol> {
    match e {
        Emit::SendSelf => Action::Send(tag, msg),
        Emit::PostSelf(delay) => Action::Post(tag, msg, delay),
        Emit::StopSelf => Action::Stop(tag),
    }
}

/// The state after one message at each of `times` in turn.
pub open spec fn after(s: State, times: Seq<Millis>) -> State
    decreases times.len(),
{
    if times.len() == 0 {
        s
    } else {
        stepped(after(s, times.drop_last()), times.last()).0
    }
}

/// Takes one message at time `now`: moves to the next state and says what
/// to ask of the runtime.
pub fn step(state: &mut State, now: Millis) -> (e: Emit)
    requires
        can_step(*old(state)),
    ensures
        (*final(state), e) == stepped(*old(state), now),
{
    let (next, e) = match *state {
        State::Empty => (State::Counter(0, now), Emit::SendSelf),
        State::Counter(n, _) => if n == FULL {
            (State::Done, Emit::SendSelf)
        } else {
            (State::Counter(n + 1, now), Emit::PostSelf(PAUSE))
        },
        State::Done => (State::Done, Emit::StopSelf),
    };
    *state = next;
    e
}

impl Actor for State {
    type T = String;

    type M = Protocol;

    open spec fn reacted(self, tag: String, now: Millis, msg: Protocol) -> Self {
        if can_step(self) {
            stepped(self, now).0
        } else {
            self
        }
    }

    open spec fn emitted(self, tag: String, now: Millis, msg: Protocol) -> Seq<
        Action<String, State, Protocol>,
    > {
        if can_step(self) {
            seq![submitted(stepped(self, now).1, tag, msg)]
        } else {
            Seq::empty()
        }
    }

    /// Takes one step and submits what it asks for, addressed to the
    /// actor's own tag. A count that cannot be raised stays, and nothing is
    /// submitted.
    fn act(&mut self, tag: &String, ctx: &mut Context<String, State, Protocol>, msg: Protocol) {
        let stuck = match *self {
            State::Counter(n, _) => n == usize::MAX,
            _ => false,
        };
        if stuck {
            assert(ctx.pending() + Seq::<Action<String, State, Protocol>>::empty()
                =~= ctx.pending());
            return ;
        }
        let ghost before = ctx.pending();
        let now = ctx.now();
        match step(self, now) {
            Emit::SendSelf => ctx.send(tag, msg),
            Emit::PostSelf(delay) => ctx.post(tag.clone(), msg, delay),
            Emit::StopSelf => ctx.stop(tag),
        }
        assert(ctx.pending() =~= before + seq![ctx.pending().last()]);
    }
}

/// While it counts, the actor's state after its `j`-th message is the count
/// `j - 1` and the time of that message.
pub proof fn counts_each_message(times: Seq<Millis>, j: int)
    requires
        1 <= j <= FULL + 1,
        j <= times.len(),
    ensures
        after(State::Empty, times.take(j)) == State::Counter((j - 1) as usize, times[j - 1]),
    decreases j,
{
    let upto = times.take(j);
    assert(upto.drop_last() =~= times.take(j - 1));
    assert(upto.last() == times[j - 1]);
    if j > 1 {
        counts_each_message(times, j - 1);
    } else {
        assert(times.take(0).len() == 0);
    }
}

/// The course of the counting actor over thirteen messages, whatever their
/// times: the first starts the count and is sent on, each of the next ten
/// raises the count and posts the message with the pause, the twelfth finds
/// the count full, sends once more and leaves the actor done, and the
/// thirteenth makes it stop itself.
pub proof fn counter_runs_its_course(times: Seq<Millis>)
    requires
        times.len() == FULL + 3,
    ensures
        stepped(State::Empty, times[0]) == (State::Counter(0, times[0]), Emit::SendSelf),
        forall|j: int|
            1 <= j <= FULL ==> stepped(#[trigger] after(State::Empty, times.take(j)), times[j]) == (
                State::Counter(j as usize, times[j]),
                Emit::PostSelf(PAUSE),
            ),
        stepped(after(State::Empty, times.take(FULL + 1)), times[FULL + 1]) == (
            State::Done,
            Emit::SendSelf,
        ),
        after(State::Empty, times.take(FULL + 2)) == State::Done,
        stepped(after(State::Empty, times.take(FULL + 2)), times[FULL + 2]) == (
            State::Done,
            Emit::StopSelf,
        ),
{
    assert forall|j: int| 1 <= j <= FULL implies stepped(
        #[trigger] after(State::Empty, times.take(j)),
        times[j],
    ) == (State::Counter(j as usize, times[j]), Emit::PostSelf(PAUSE)) by {
        counts_each_message(times, j);
    }
    counts_each_message(times, FULL + 1);
    let upto = times.take(FULL + 2);
    assert(upto.drop_last() =~= times.take(FULL + 1));
    assert(upto.last() == times[FULL + 1]);
}

/// Handing a message to a bound counting actor leaves it in the next state
/// and adds the one action that it asks for, addressed to its own tag, to
/// those that wait.
pub proof fn delivery_steps_the_counter(
    m: Model<String, State, Protocol>,
    tag: String,
    now: Millis,
    msg: Protocol,
)
    requires
        m.registry.contains_key(tag@),
        can_step(m.registry[tag@]),
    ensures
        delivered(m, tag, now, msg).registry == m.registry.insert(
            tag@,
            stepped(m.registry[tag@], now).0,
        ),
        delivered(m, tag, now, msg).outbox == m.outbox.push(
            submitted(stepped(m.registry[tag@], now).1, tag, msg),
        ),
{
    assert(m.outbox + seq![submitted(stepped(m.registry[tag@], now).1, tag, msg)] =~= m.outbox.push(
        submitted(stepped(m.registry[tag@], now).1, tag, msg),
    ));
}

/// The world of one counting actor: it alone is bound, under `tag`, in
/// state `s`; its mailbox is empty; `delayed` is scheduled and `outbox`
/// waits.
pub open spec fn lone(
    tag: String,
    s: State,
    delayed: Seq<(Millis, String, Protocol)>,
    outbox: Seq<Action<String, State, Protocol>>,
) -> Model<String, State, Protocol> {
    Model {
        registry: Map::empty().insert(tag@, s),
        mailboxes: Map::empty().insert(tag@, Seq::empty()),
        order: seq![tag],
        delayed,
        outbox,
    }
}

/// The first tick of the counting scenario: a fresh runtime drains the bind
/// and the first message, and the actor starts to count at the tick's time
/// and sends the message on to itself.
pub proof fn first_tick_starts_the_count(tag: String, msg: Protocol, now: Millis)
    ensures
        ticked(
            Model {
                registry: Map::empty(),
                mailboxes: Map::empty(),
                order: Seq::empty(),
                delayed: Seq::empty(),
                outbox: seq![Action::Bind(tag, State::Empty), Action::Send(tag, msg)],
            },
            now,
        ) == lone(tag, State::Counter(0, now), Seq::empty(), seq![Action::Send(tag, msg)]),
{
    reveal_with_fuel(drained, 4);
    reveal_with_fuel(dispatched_in, 3);
    let m = Model::<String, State, Protocol> {
        registry: Map::empty(),
        mailboxes: Map::empty(),
        order: Seq::empty(),
        delayed: Seq::empty(),
        outbox: seq![Action::Bind(tag, State::Empty), Action::Send(tag, msg)],
    };
    let m1 = Model { outbox: m.outbox.drop_first(), ..applied(m, m.outbox[0], now) };
    let m2 = Model { outbox: m1.outbox.drop_first(), ..applied(m1, m1.outbox[0], now) };
    assert(m1.outbox.len() == 1);
    assert(m2.outbox.len() == 0);
    assert(drained(m, now) == m2);
    assert(fired(m2, now) == m2);
    assert(m2.order =~= seq![tag]);
    assert(m2.order.drop_first().len() == 0);
    let t = dispatched_one(m2, tag, now);
    assert(dispatched(m2, now) == t);
    let goal = lone(tag, State::Counter(0, now), Seq::empty(), seq![Action::Send(tag, msg)]);
    assert(t.registry =~= goal.registry);
    assert(t.mailboxes =~= goal.mailboxes) by {
        assert(seq![msg].drop_first() =~= Seq::<Protocol>::empty());
    }
    assert(t.order =~= goal.order);
    assert(t.delayed =~= goal.delayed);
    assert(t.outbox =~= goal.outbox);
}

/// A tick that drains a message for the lone counting actor hands it over
/// in the same tick: the actor takes one step and what it asks for waits.
pub proof fn sent_message_steps_the_counter(tag: String, s: State, msg: Protocol, now: Millis)
    requires
        can_step(s),
    ensures
        ticked(lone(tag, s, Seq::empty(), seq![Action::Send(tag, msg)]), now) == lone(
            tag,
            stepped(s, now).0,
            Seq::empty(),
            seq![submitted(stepped(s, now).1, tag, msg)],
        ),
{
    reveal_with_fuel(drained, 3);
    reveal_with_fuel(dispatched_in, 3);
    let m = lone(tag, s, Seq::empty(), seq![Action::Send(tag, msg)]);
    let m1 = Model { outbox: m.outbox.drop_first(), ..applied(m, m.outbox[0], now) };
    assert(m1.outbox.len() == 0);
    assert(drained(m, now) == m1);
    assert(fired(m1, now) == m1);
    assert(m1.order.drop_first().len() == 0);
    let t = dispatched_one(m1, tag, now);
    assert(dispatched(m1, now) == t);
    assert(m1.mailboxes[tag@] =~= seq![msg]);
    let goal = lone(
        tag,
        stepped(s, now).0,
        Seq::empty(),
        seq![submitted(stepped(s, now).1, tag, msg)],
    );
    assert(t.registry =~= goal.registry);
    assert(t.mailboxes =~= goal.mailboxes) by {
        assert(seq![msg].drop_first() =~= Seq::<Protocol>::empty());
    }
    assert(t.delayed =~= goal.delayed);
    assert(t.outbox =~= goal.outbox);
}

/// A tick that drains a post for the lone counting actor schedules it for
/// the tick's time plus the delay, and hands nothing over while that lies
/// ahead.
pub proof fn posted_message_is_scheduled(
    tag: String,
    s: State,
    msg: Protocol,
    delay: Millis,
    now: Millis,
)
    requires
        due_time(now, delay) > now,
    ensures
        ticked(lone(tag, s, Seq::empty(), seq![Action::Post(tag, msg, delay)]), now) == lone(
            tag,
            s,
            seq![(due_time(now, delay), tag, msg)],
            Seq::empty(),
        ),
{
    reveal_with_fuel(drained, 3);
    reveal_with_fuel(dispatched_in, 3);
    let m = lone(tag, s, Seq::empty(), seq![Action::Post(tag, msg, delay)]);
    let m1 = Model { outbox: m.outbox.drop_first(), ..applied(m, m.outbox[0], now) };
    assert(m1.outbox.len() == 0);
    assert(drained(m, now) == m1);
    assert(m1.delayed =~= seq![(due_time(now, delay), tag, msg)]);
    assert(earliest(m1.delayed) == 0);
    assert(fired(m1, now) == m1);
    assert(m1.order.drop_first().len() == 0);
    assert(dispatched(m1, now) == m1);
    let goal = lone(tag, s, seq![(due_time(now, delay), tag, msg)], Seq::empty());
    assert(m1.outbox =~= goal.outbox);
}

/// A tick before the deadline of the one scheduled delivery changes nothing.
pub proof fn waiting_tick_changes_nothing(
    tag: String,
    s: State,
    msg: Protocol,
    deadline: Millis,
    now: Millis,
)
    requires
        deadline > now,
    ensures
        ticked(lone(tag, s, seq![(deadline, tag, msg)], Seq::empty()), now) == lone(
            tag,
            s,
            seq![(deadline, tag, msg)],
            Seq::empty(),
        ),
{
    reveal_with_fuel(dispatched_in, 3);
    let m = lone(tag, s, seq![(deadline, tag, msg)], Seq::empty());
    assert(drained(m, now) == m);
    assert(earliest(m.delayed) == 0);
    assert(fired(m, now) == m);
    assert(m.order.drop_first().len() == 0);
    assert(dispatched(m, now) == m);
}

/// The first tick at or after the deadline of the one scheduled delivery
/// fires it: the actor takes one step and what it asks for waits.
pub proof fn due_post_steps_the_counter(
    tag: String,
    s: State,
    msg: Protocol,
    deadline: Millis,
    now: Millis,
)
    requires
        can_step(s),
        deadline <= now,
    ensures
        ticked(lone(tag, s, seq![(deadline, tag, msg)], Seq::empty()), now) == lone(
            tag,
            stepped(s, now).0,
            Seq::empty(),
            seq![submitted(stepped(s, now).1, tag, msg)],
        ),
{
    reveal_with_fuel(fired, 3);
    reveal_with_fuel(dispatched_in, 3);
    let m = lone(tag, s, seq![(deadline, tag, msg)], Seq::empty());
    assert(drained(m, now) == m);
    assert(earliest(m.delayed) == 0);
    let popped = Model { delayed: m.delayed.remove(0), ..m };
    assert(popped.delayed.len() == 0);
    let f = delivered(popped, tag, now, msg);
    assert(fired(f, now) == f);
    assert(fired(m, now) == f);
    assert(f.order.drop_first().len() == 0);
    assert(dispatched(f, now) == f);
    let goal = lone(
        tag,
        stepped(s, now).0,
        Seq::empty(),
        seq![submitted(stepped(s, now).1, tag, msg)],
    );
    assert(f.registry =~= goal.registry);
    assert(f.delayed =~= goal.delayed);
    assert(f.outbox =~= goal.outbox);
}

/// The last tick of the counting scenario: draining the actor's stop leaves
/// no actor, so the loop ends with this tick.
pub proof fn stop_brings_the_runtime_to_rest(tag: String, s: State, now: Millis)
    ensures
        at_rest(ticked(lone(tag, s, Seq::empty(), seq![Action::Stop(tag)]), now)),
{
    reveal_with_fuel(drained, 3);
    reveal_with_fuel(dispatched_in, 3);
    let m = lone(tag, s, Seq::empty(), seq![Action::Stop(tag)]);
    let m1 = Model { outbox: m.outbox.drop_first(), ..applied(m, m.outbox[0], now) };
    assert(m1.outbox.len() == 0);
    assert(drained(m, now) == m1);
    assert(m1.registry =~= Map::empty());
    assert(fired(m1, now) == m1);
    assert(m1.order.drop_first().len() == 0);
    assert(dispatched(m1, now) == m1);
}

} // verus!
