use doing_more_actors::counter::{step, Emit, Protocol, State};
use doing_more_actors::{Action, Actor, System};
use std::cell::Cell;

#[test]
fn counter_runs_to_completion_and_the_loop_exits() {
    let mut sys: System<String, State, Protocol> = System::default();
    let mut ctx = sys.context();
    let tag = "a".to_string();
    ctx.bind(tag.clone(), State::Empty);
    ctx.send(&tag, Protocol::Empty);

    let ticks = Cell::new(0u64);
    let clock = || {
        let t = ticks.get();
        ticks.set(t + 1);
        t * 50
    };
    let done = sys.run(&mut ctx, clock, 1000);
    assert!(done);
    // Tick 0 binds and dispatches the first message, tick 1 dispatches the
    // second, which posts. A post is drained one tick after it was made and
    // fires two ticks of 50 ms later: at ticks 4, 7, .., 28 and 31. The
    // delivery at tick 31 finds the counter at ten and sends; tick 32
    // dispatches to Done, which stops; tick 33 drains the stop.
    assert_eq!(ticks.get(), 34);
}

#[test]
fn run_gives_up_at_the_limit_while_an_actor_is_left() {
    let mut sys: System<String, State, Protocol> = System::default();
    let mut ctx = sys.context();
    let tag = "a".to_string();
    ctx.bind(tag.clone(), State::Empty);
    ctx.send(&tag, Protocol::Empty);
    let done = sys.run(&mut ctx, || 0, 3);
    assert!(!done);
}

#[test]
fn the_counter_starts_with_its_first_message() {
    let mut s = State::Empty;
    assert_eq!(step(&mut s, 17), Emit::SendSelf);
    assert_eq!(s, State::Counter(0, 17));
}

#[test]
fn the_counter_rises_and_posts_with_the_pause() {
    let mut s = State::Counter(3, 5);
    assert_eq!(step(&mut s, 40), Emit::PostSelf(100));
    assert_eq!(s, State::Counter(4, 40));
    let mut last = State::Counter(9, 40);
    assert_eq!(step(&mut last, 41), Emit::PostSelf(100));
    assert_eq!(last, State::Counter(10, 41));
}

#[test]
fn the_full_counter_sends_and_is_done() {
    let mut s = State::Counter(10, 5);
    assert_eq!(step(&mut s, 40), Emit::SendSelf);
    assert_eq!(s, State::Done);
}

#[test]
fn the_done_counter_asks_to_be_stopped() {
    let mut s = State::Done;
    assert_eq!(step(&mut s, 40), Emit::StopSelf);
    assert_eq!(s, State::Done);
}

#[test]
fn a_count_beyond_full_goes_on_rising() {
    let mut s = State::Counter(11, 0);
    assert_eq!(step(&mut s, 1), Emit::PostSelf(100));
    assert_eq!(s, State::Counter(12, 1));
}

#[test]
fn the_counting_actor_takes_thirteen_messages() {
    let mut s = State::Empty;
    let mut emits: Vec<Emit> = Vec::new();
    let mut now = 0;
    while emits.last() != Some(&Emit::StopSelf) {
        emits.push(step(&mut s, now));
        now += 100;
    }
    assert_eq!(emits.len(), 13);
    assert_eq!(emits[0], Emit::SendSelf);
    assert!(emits[1..11].iter().all(|e| *e == Emit::PostSelf(100)));
    assert_eq!(emits[11], Emit::SendSelf);
    assert_eq!(s, State::Done);
}

#[test]
fn act_submits_to_the_actors_own_tag() {
    let mut sys: System<String, State, Protocol> = System::default();
    let mut ctx = sys.context();
    let mut s = State::Counter(10, 0);
    s.act(&"a".to_string(), &mut ctx, Protocol::Empty);
    assert_eq!(s, State::Done);
    sys.apply(Action::Bind("a".to_string(), s));
    sys.apply(Action::Bind("b".to_string(), State::Done));
    // the pending send reaches the actor under "a", which asks to be
    // stopped; "b" got nothing and stays
    assert!(!sys.tick(&mut ctx, 1));
    assert!(!sys.tick(&mut ctx, 2));
    ctx.stop(&"b".to_string());
    assert!(sys.tick(&mut ctx, 3));
}

#[test]
fn a_stuck_count_stays_and_submits_nothing() {
    let mut sys: System<String, State, Protocol> = System::default();
    let mut ctx = sys.context();
    ctx.bind("a".to_string(), State::Counter(usize::MAX, 0));
    ctx.send(&"a".to_string(), Protocol::Empty);
    assert!(!sys.tick(&mut ctx, 1));
    assert!(!sys.tick(&mut ctx, 2));
    assert!(!sys.tick(&mut ctx, 200));
}
