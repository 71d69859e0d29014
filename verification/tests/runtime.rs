use doing_more_actors::{Action, Actor, Context, Message, Millis, System, Tag};
use std::cell::RefCell;
use std::rc::Rc;

/// One delivery as an actor saw it: its own name, the tag, the note's
/// number and the tick time.
type Seen = (String, String, u32, Millis);

type Log = Rc<RefCell<Vec<Seen>>>;

#[derive(Debug, Clone)]
enum Note {
    /// Only recorded.
    Plain(u32),
    /// Recorded, then sent on to the tag as `Plain`.
    Forward(u32, String),
    /// Recorded, then posted to the tag as `Plain` with the delay.
    Later(u32, String, Millis),
    /// Recorded, then the receiving actor stops itself.
    Quit(u32),
}

impl Message for Note {}

#[derive(Debug)]
struct Recorder {
    name: String,
    log: Log,
}

impl Actor for Recorder {
    type T = String;
    type M = Note;

    fn act(&mut self, tag: &String, ctx: &mut Context<String, Recorder, Note>, msg: Note) {
        let id = match &msg {
            Note::Plain(n) | Note::Forward(n, _) | Note::Later(n, _, _) | Note::Quit(n) => *n,
        };
        self.log.borrow_mut().push((self.name.clone(), tag.clone(), id, ctx.now()));
        match msg {
            Note::Plain(_) => {}
            Note::Forward(n, to) => ctx.send(&to, Note::Plain(n)),
            Note::Later(n, to, delay) => ctx.post(to, Note::Plain(n), delay),
            Note::Quit(_) => ctx.stop(tag),
        }
    }
}

fn recorder(name: &str, log: &Log) -> Recorder {
    Recorder { name: name.to_string(), log: log.clone() }
}

fn seen(name: &str, tag: &str, id: u32, now: Millis) -> Seen {
    (name.to_string(), tag.to_string(), id, now)
}

fn fresh() -> (System<String, Recorder, Note>, Context<String, Recorder, Note>, Log) {
    let sys: System<String, Recorder, Note> = System::default();
    let ctx = sys.context();
    (sys, ctx, Rc::new(RefCell::new(Vec::new())))
}

#[test]
fn string_tags_compare_by_their_text() {
    let a = "a".to_string();
    assert!(a.same(&"a".to_string()));
    assert!(!a.same(&"b".to_string()));
    assert_eq!(a.duplicate(), "a".to_string());
}

#[test]
fn a_new_context_is_at_time_zero() {
    let (_sys, ctx, _log) = fresh();
    assert_eq!(ctx.now(), 0);
}

#[test]
fn a_runtime_without_actors_is_done_after_one_tick() {
    let (mut sys, mut ctx, _log) = fresh();
    assert!(sys.tick(&mut ctx, 5));
    assert_eq!(ctx.now(), 5);
}

#[test]
fn actions_on_a_tag_never_bound_do_nothing() {
    let (mut sys, mut ctx, log) = fresh();
    let nobody = "nobody".to_string();
    ctx.send(&nobody, Note::Plain(1));
    ctx.post(nobody.clone(), Note::Plain(2), 0);
    ctx.stop(&nobody);
    // nothing is bound, so the first tick already leaves the registry empty
    assert!(sys.run(&mut ctx, || 10, 5));
    assert!(sys.tick(&mut ctx, 20));
    assert!(log.borrow().is_empty());
}

#[test]
fn actions_on_an_unbound_tag_leave_a_bound_actor_alone() {
    let (mut sys, mut ctx, log) = fresh();
    ctx.bind("a".to_string(), recorder("A", &log));
    ctx.send(&"nobody".to_string(), Note::Plain(1));
    ctx.stop(&"nobody".to_string());
    assert!(!sys.tick(&mut ctx, 1));
    assert!(!sys.tick(&mut ctx, 2));
    assert!(log.borrow().is_empty());
}

#[test]
fn a_bound_actor_gets_the_message_in_the_tick_that_drains_it() {
    let (mut sys, mut ctx, log) = fresh();
    ctx.bind("a".to_string(), recorder("A", &log));
    ctx.send(&"a".to_string(), Note::Plain(1));
    assert!(!sys.tick(&mut ctx, 42));
    assert_eq!(*log.borrow(), vec![seen("A", "a", 1, 42)]);
}

#[test]
fn rebinding_replaces_the_actor_and_stale_messages_reach_the_new_one() {
    let (mut sys, mut ctx, log) = fresh();
    ctx.bind("a".to_string(), recorder("first", &log));
    ctx.send(&"a".to_string(), Note::Plain(1));
    ctx.send(&"a".to_string(), Note::Plain(2));
    ctx.bind("a".to_string(), recorder("second", &log));
    assert!(!sys.tick(&mut ctx, 1));
    assert!(!sys.tick(&mut ctx, 2));
    assert_eq!(*log.borrow(), vec![seen("second", "a", 1, 1), seen("second", "a", 2, 2)]);
}

#[test]
fn stop_removes_the_actor_and_its_queued_messages_are_dropped() {
    let (mut sys, mut ctx, log) = fresh();
    ctx.bind("a".to_string(), recorder("A", &log));
    ctx.bind("b".to_string(), recorder("B", &log));
    ctx.send(&"a".to_string(), Note::Plain(1));
    ctx.post("a".to_string(), Note::Plain(2), 0);
    ctx.stop(&"a".to_string());
    assert!(!sys.tick(&mut ctx, 1));
    assert!(log.borrow().is_empty());
    ctx.stop(&"b".to_string());
    assert!(sys.tick(&mut ctx, 2));
}

#[test]
fn an_actor_that_stops_itself_ends_the_run() {
    let (mut sys, mut ctx, log) = fresh();
    ctx.bind("a".to_string(), recorder("A", &log));
    ctx.send(&"a".to_string(), Note::Quit(9));
    // the tick that delivers the message submits the stop; the next drains it
    assert!(!sys.tick(&mut ctx, 1));
    assert!(sys.tick(&mut ctx, 2));
    assert_eq!(*log.borrow(), vec![seen("A", "a", 9, 1)]);
}

#[test]
fn a_message_sent_by_an_actor_is_seen_in_a_later_tick() {
    let (mut sys, mut ctx, log) = fresh();
    ctx.bind("a".to_string(), recorder("A", &log));
    ctx.bind("b".to_string(), recorder("B", &log));
    ctx.send(&"a".to_string(), Note::Forward(7, "b".to_string()));
    assert!(!sys.tick(&mut ctx, 100));
    assert_eq!(*log.borrow(), vec![seen("A", "a", 7, 100)]);
    assert!(!sys.tick(&mut ctx, 130));
    assert_eq!(*log.borrow(), vec![seen("A", "a", 7, 100), seen("B", "b", 7, 130)]);
}

#[test]
fn one_mailbox_gives_one_message_per_tick_in_fifo_order() {
    let (mut sys, mut ctx, log) = fresh();
    ctx.bind("a".to_string(), recorder("A", &log));
    ctx.send(&"a".to_string(), Note::Plain(1));
    ctx.send(&"a".to_string(), Note::Plain(2));
    ctx.send(&"a".to_string(), Note::Plain(3));
    assert!(!sys.tick(&mut ctx, 10));
    assert_eq!(log.borrow().len(), 1);
    assert!(!sys.tick(&mut ctx, 20));
    assert_eq!(log.borrow().len(), 2);
    assert!(!sys.tick(&mut ctx, 30));
    assert!(!sys.tick(&mut ctx, 40));
    assert_eq!(
        *log.borrow(),
        vec![seen("A", "a", 1, 10), seen("A", "a", 2, 20), seen("A", "a", 3, 30)]
    );
}

#[test]
fn every_mailbox_with_a_message_is_served_in_each_tick() {
    let (mut sys, mut ctx, log) = fresh();
    ctx.bind("a".to_string(), recorder("A", &log));
    ctx.bind("b".to_string(), recorder("B", &log));
    ctx.send(&"a".to_string(), Note::Plain(1));
    ctx.send(&"a".to_string(), Note::Plain(2));
    ctx.send(&"b".to_string(), Note::Plain(3));
    assert!(!sys.tick(&mut ctx, 10));
    let mut first: Vec<Seen> = log.borrow().clone();
    first.sort();
    assert_eq!(first, vec![seen("A", "a", 1, 10), seen("B", "b", 3, 10)]);
    assert!(!sys.tick(&mut ctx, 20));
    assert_eq!(log.borrow().len(), 3);
    assert_eq!(log.borrow()[2], seen("A", "a", 2, 20));
}

#[test]
fn messages_for_one_tag_never_reach_another_tags_actor() {
    let (mut sys, mut ctx, log) = fresh();
    ctx.bind("a".to_string(), recorder("A", &log));
    ctx.bind("b".to_string(), recorder("B", &log));
    ctx.send(&"a".to_string(), Note::Plain(1));
    ctx.post("a".to_string(), Note::Plain(2), 5);
    ctx.send(&"a".to_string(), Note::Plain(3));
    let mut now: Millis = 0;
    while now < 50 {
        assert!(!sys.tick(&mut ctx, now));
        now += 5;
    }
    assert_eq!(log.borrow().len(), 3);
    assert!(log.borrow().iter().all(|s| s.0 == "A" && s.1 == "a"));
}

#[test]
fn a_post_fires_at_the_first_tick_at_or_after_its_deadline() {
    let (mut sys, mut ctx, log) = fresh();
    ctx.bind("a".to_string(), recorder("A", &log));
    ctx.post("a".to_string(), Note::Plain(1), 25);
    // drained at 10: the deadline is 35
    assert!(!sys.tick(&mut ctx, 10));
    assert!(!sys.tick(&mut ctx, 20));
    assert!(!sys.tick(&mut ctx, 34));
    assert!(log.borrow().is_empty());
    assert!(!sys.tick(&mut ctx, 35));
    assert_eq!(*log.borrow(), vec![seen("A", "a", 1, 35)]);
    assert!(!sys.tick(&mut ctx, 36));
    assert_eq!(log.borrow().len(), 1);
}

#[test]
fn a_post_with_no_delay_fires_in_the_tick_that_drains_it() {
    let (mut sys, mut ctx, log) = fresh();
    ctx.bind("a".to_string(), recorder("A", &log));
    ctx.post("a".to_string(), Note::Plain(1), 0);
    assert!(!sys.tick(&mut ctx, 7));
    assert_eq!(*log.borrow(), vec![seen("A", "a", 1, 7)]);
}

#[test]
fn the_delay_of_a_post_counts_from_its_drain_not_from_its_submission() {
    let (mut sys, mut ctx, log) = fresh();
    ctx.bind("a".to_string(), recorder("A", &log));
    ctx.send(&"a".to_string(), Note::Later(4, "a".to_string(), 50));
    // submitted by the actor at 0, drained at 100: the deadline is 150
    assert!(!sys.tick(&mut ctx, 0));
    assert!(!sys.tick(&mut ctx, 100));
    assert!(!sys.tick(&mut ctx, 149));
    assert_eq!(*log.borrow(), vec![seen("A", "a", 4, 0)]);
    assert!(!sys.tick(&mut ctx, 150));
    assert_eq!(*log.borrow(), vec![seen("A", "a", 4, 0), seen("A", "a", 4, 150)]);
}

#[test]
fn due_posts_fire_in_ascending_order_of_deadline() {
    let (mut sys, mut ctx, log) = fresh();
    ctx.bind("a".to_string(), recorder("A", &log));
    ctx.post("a".to_string(), Note::Plain(1), 30);
    ctx.post("a".to_string(), Note::Plain(2), 10);
    ctx.post("a".to_string(), Note::Plain(3), 20);
    ctx.post("a".to_string(), Note::Plain(4), 90);
    assert!(!sys.tick(&mut ctx, 0));
    assert!(log.borrow().is_empty());
    assert!(!sys.tick(&mut ctx, 50));
    assert_eq!(
        *log.borrow(),
        vec![seen("A", "a", 2, 50), seen("A", "a", 3, 50), seen("A", "a", 1, 50)]
    );
    assert!(!sys.tick(&mut ctx, 90));
    assert_eq!(log.borrow().len(), 4);
    assert_eq!(log.borrow()[3], seen("A", "a", 4, 90));
}

#[test]
fn posts_with_one_deadline_fire_in_the_order_of_their_scheduling() {
    let (mut sys, mut ctx, log) = fresh();
    ctx.bind("a".to_string(), recorder("A", &log));
    ctx.post("a".to_string(), Note::Plain(1), 10);
    ctx.post("a".to_string(), Note::Plain(2), 10);
    ctx.post("a".to_string(), Note::Plain(3), 10);
    assert!(!sys.tick(&mut ctx, 0));
    assert!(!sys.tick(&mut ctx, 10));
    assert_eq!(
        *log.borrow(),
        vec![seen("A", "a", 1, 10), seen("A", "a", 2, 10), seen("A", "a", 3, 10)]
    );
}

#[test]
fn a_deadline_beyond_the_largest_time_stops_at_the_largest_time() {
    let (mut sys, mut ctx, log) = fresh();
    ctx.bind("a".to_string(), recorder("A", &log));
    ctx.post("a".to_string(), Note::Plain(1), u64::MAX);
    assert!(!sys.tick(&mut ctx, 5));
    assert!(!sys.tick(&mut ctx, u64::MAX - 1));
    assert!(log.borrow().is_empty());
    assert!(!sys.tick(&mut ctx, u64::MAX));
    assert_eq!(*log.borrow(), vec![seen("A", "a", 1, u64::MAX)]);
}

#[test]
fn timers_fire_before_mailboxes_are_served() {
    let (mut sys, mut ctx, log) = fresh();
    ctx.bind("a".to_string(), recorder("A", &log));
    ctx.send(&"a".to_string(), Note::Plain(1));
    ctx.post("a".to_string(), Note::Plain(2), 0);
    assert!(!sys.tick(&mut ctx, 3));
    assert_eq!(*log.borrow(), vec![seen("A", "a", 2, 3), seen("A", "a", 1, 3)]);
}

#[test]
fn apply_changes_the_tables_without_running_an_actor() {
    let (mut sys, mut ctx, log) = fresh();
    sys.apply(Action::Bind("a".to_string(), recorder("A", &log)));
    sys.apply(Action::Send("a".to_string(), Note::Plain(1)));
    sys.apply(Action::Post("a".to_string(), Note::Plain(2), 0));
    assert!(log.borrow().is_empty());
    assert_eq!(sys.next_due(), Some(0));
    sys.handle_posts(&mut ctx);
    assert_eq!(*log.borrow(), vec![seen("A", "a", 2, 0)]);
    assert_eq!(sys.next_due(), None);
    sys.handle_actors(&mut ctx);
    assert_eq!(*log.borrow(), vec![seen("A", "a", 2, 0), seen("A", "a", 1, 0)]);
    sys.handle_actors(&mut ctx);
    assert_eq!(log.borrow().len(), 2);
    sys.apply(Action::Stop("a".to_string()));
    assert!(sys.tick(&mut ctx, 1));
}

#[test]
fn next_due_picks_the_least_deadline_and_the_first_of_equals() {
    let (mut sys, _ctx, _log) = fresh();
    sys.apply(Action::Post("a".to_string(), Note::Plain(1), 7));
    sys.apply(Action::Post("a".to_string(), Note::Plain(2), 0));
    sys.apply(Action::Post("a".to_string(), Note::Plain(3), 0));
    assert_eq!(sys.next_due(), Some(1));
}

#[test]
fn handle_actions_drains_the_context_in_order() {
    let (mut sys, mut ctx, log) = fresh();
    ctx.bind("a".to_string(), recorder("A", &log));
    ctx.stop(&"a".to_string());
    ctx.bind("a".to_string(), recorder("again", &log));
    ctx.send(&"a".to_string(), Note::Plain(1));
    sys.handle_actions(&mut ctx);
    assert!(log.borrow().is_empty());
    sys.handle_actors(&mut ctx);
    assert_eq!(*log.borrow(), vec![seen("again", "a", 1, 0)]);
}

#[test]
fn deliver_hands_the_message_to_the_bound_actor_only() {
    let (mut sys, mut ctx, log) = fresh();
    sys.apply(Action::Bind("a".to_string(), recorder("A", &log)));
    sys.deliver(&mut ctx, &"b".to_string(), Note::Plain(1));
    assert!(log.borrow().is_empty());
    sys.deliver(&mut ctx, &"a".to_string(), Note::Forward(2, "a".to_string()));
    assert_eq!(*log.borrow(), vec![seen("A", "a", 2, 0)]);
    // what the actor sent waits in the context for the next drain
    sys.handle_actors(&mut ctx);
    assert_eq!(log.borrow().len(), 1);
    assert!(!sys.tick(&mut ctx, 9));
    assert_eq!(*log.borrow(), vec![seen("A", "a", 2, 0), seen("A", "a", 2, 9)]);
}

#[test]
fn run_stops_at_the_first_tick_that_leaves_no_actor() {
    let (mut sys, mut ctx, log) = fresh();
    ctx.bind("a".to_string(), recorder("A", &log));
    ctx.send(&"a".to_string(), Note::Plain(1));
    ctx.send(&"a".to_string(), Note::Quit(2));
    let calls = std::cell::Cell::new(0u64);
    let clock = || {
        calls.set(calls.get() + 1);
        calls.get() * 10
    };
    assert!(sys.run(&mut ctx, clock, 100));
    // ticks at 10 and 20 deliver; the tick at 30 drains the stop
    assert_eq!(calls.get(), 3);
    assert_eq!(*log.borrow(), vec![seen("A", "a", 1, 10), seen("A", "a", 2, 20)]);
}

#[test]
fn run_with_no_ticks_allowed_does_nothing() {
    let (mut sys, mut ctx, log) = fresh();
    ctx.bind("a".to_string(), recorder("A", &log));
    ctx.send(&"a".to_string(), Note::Plain(1));
    assert!(!sys.run(&mut ctx, || 1, 0));
    assert!(log.borrow().is_empty());
    assert!(!sys.run(&mut ctx, || 1, 2));
    assert_eq!(*log.borrow(), vec![seen("A", "a", 1, 1)]);
}

#[test]
fn absorbed_actions_follow_those_already_pending() {
    let (mut sys, mut ctx, log) = fresh();
    let mut second = sys.context();
    second.send(&"a".to_string(), Note::Plain(2));
    ctx.bind("a".to_string(), recorder("A", &log));
    ctx.send(&"a".to_string(), Note::Plain(1));
    ctx.absorb(&mut second);
    assert!(!sys.tick(&mut ctx, 3));
    assert!(!sys.tick(&mut ctx, 4));
    assert_eq!(*log.borrow(), vec![seen("A", "a", 1, 3), seen("A", "a", 2, 4)]);
    // the second handle is empty now: nothing more arrives through it
    assert!(!sys.tick(&mut second, 5));
    assert_eq!(log.borrow().len(), 2);
}

#[test]
fn run_leaves_the_time_of_its_last_tick() {
    let (mut sys, mut ctx, _log) = fresh();
    assert!(sys.run(&mut ctx, || 7, 5));
    assert_eq!(ctx.now(), 7);
}
