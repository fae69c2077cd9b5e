use mcconsole::app::{App, Effect, InputOutcome};
use mcconsole::bus::Bus;
use mcconsole::command::Command;
use mcconsole::console_scene::ConsoleScene;
use mcconsole::tabbed_scene::{Tab, TabbedScene};
use mcconsole::test_scene::TestScene;
use mcconsole::message::{Envelope, JobDone, Message, Payload, Tick};
use mcconsole::outbox::Outbox;
use mcconsole::scene::{Action, KeyCode, KeyFlow, KeyInput, Registrar, Scene, SceneId};
use std::any::{Any, TypeId};
use std::cell::RefCell;
use std::rc::Rc;

struct Boxed(Box<dyn Any + Send>);

impl Payload for Boxed {
    fn erase<T: Message>(msg: T) -> Self {
        Boxed(Box::new(msg))
    }
}

type Log = Rc<RefCell<Vec<String>>>;

/// A scene for the tests, without children: it records what it is asked,
/// and answers as told.
struct Node {
    name: &'static str,
    consume: bool,
    listens_to_ticks: bool,
    reply_with_done: bool,
    action: Option<Action<u32>>,
    log: Log,
}

fn node(name: &'static str, log: &Log) -> Node {
    Node {
        name,
        consume: false,
        listens_to_ticks: true,
        reply_with_done: false,
        action: None,
        log: log.clone(),
    }
}

impl Scene<(), Boxed, u32> for Node {
    fn register(&self, registrar: &mut Registrar) {
        if self.listens_to_ticks {
            registrar.on::<Tick>();
        }
        registrar.on::<JobDone>();
    }

    fn handle_key(&mut self, _key: &KeyInput, _ctx: &(), _out: &mut Outbox<Boxed>) -> Action<u32> {
        self.log.borrow_mut().push(format!("key {}", self.name));
        self.action.take().unwrap_or(Action::Nothing)
    }

    fn on_mount(&mut self, _ctx: &(), out: &mut Outbox<Boxed>) {
        self.log.borrow_mut().push(format!("mount {}", self.name));
        out.emit(JobDone { ok: true });
    }

    fn intercept_key(&mut self, _key: &KeyInput) -> KeyFlow {
        self.log.borrow_mut().push(format!("intercept {}", self.name));
        if self.consume { KeyFlow::Consumed } else { KeyFlow::Pass }
    }

    fn active_child(&self) -> Option<SceneId> {
        None
    }

    fn child_ids(&self) -> Vec<SceneId> {
        vec![]
    }

    fn handle(&mut self, msg: &Envelope<Boxed>, _ctx: &(), out: &mut Outbox<Boxed>) {
        let what = if msg.tid == TypeId::of::<Tick>() { "tick" } else { "done" };
        self.log.borrow_mut().push(format!("{} {}", what, self.name));
        if self.reply_with_done && what == "tick" {
            out.emit(JobDone { ok: false });
        }
    }
}

fn key(c: char) -> KeyInput {
    KeyInput { code: KeyCode::Char(c), ctrl: false }
}

fn drain(app: &mut App<(), Boxed, u32, Node>) {
    while app.dispatch_one() {}
}

#[test]
fn registration_hands_out_fresh_ids() {
    let log: Log = Rc::new(RefCell::new(vec![]));
    let mut app: App<(), Boxed, u32, Node> = App::new(());
    assert!(app.running());
    assert_eq!(app.next_id(), 1);
    let a = app.register_scene(node("a", &log));
    let b = app.push_scene(node("b", &log));
    assert_eq!(a, SceneId(1));
    assert_eq!(b, SceneId(2));
    assert_ne!(a, b);
    assert_eq!(app.next_id(), 3);
    assert_eq!(app.order(), &vec![b]);
    assert!(app.contains(a) && app.contains(b));
    assert_eq!(*log.borrow(), vec!["mount a".to_string(), "mount b".to_string()]);
}

fn tabbed(ids: &[SceneId]) -> ConsoleScene {
    ConsoleScene::Tabbed(TabbedScene::new(
        ids.iter().map(|&sid| Tab { title: "t".to_string(), sid }).collect(),
    ))
}

fn test_scene() -> ConsoleScene {
    ConsoleScene::Test(TestScene)
}

#[test]
fn close_scene_removes_its_children_and_nothing_else() {
    let mut app: App<(), Boxed, u32, ConsoleScene> = App::new(());
    let leaf1 = app.register_scene(test_scene());
    let leaf2 = app.register_scene(test_scene());
    let mid = app.register_scene(tabbed(&[leaf2]));
    let top = app.push_scene(tabbed(&[leaf1, mid, SceneId(99)]));
    let other = app.push_scene(test_scene());
    app.close_scene(top);
    assert!(!app.contains(top));
    assert!(!app.contains(leaf1));
    assert!(!app.contains(mid));
    assert!(!app.contains(leaf2));
    assert!(app.contains(other));
    assert_eq!(app.order(), &vec![other]);
}

#[test]
fn closed_scenes_get_no_messages() {
    let log: Log = Rc::new(RefCell::new(vec![]));
    let mut app: App<(), Boxed, u32, Node> = App::new(());
    let gone = app.push_scene(node("gone", &log));
    app.push_scene(node("other", &log));
    drain(&mut app);
    app.close_scene(gone);
    log.borrow_mut().clear();
    app.enqueue(Envelope::new(Tick));
    drain(&mut app);
    assert_eq!(*log.borrow(), vec!["tick other".to_string()]);
}

#[test]
fn close_scene_survives_cycles_among_children() {
    let mut app: App<(), Boxed, u32, ConsoleScene> = App::new(());
    let a = app.push_scene(tabbed(&[SceneId(2)]));
    let b = app.register_scene(tabbed(&[a]));
    assert_eq!(b, SceneId(2));
    app.close_scene(a);
    assert!(!app.contains(a));
    assert!(!app.contains(b));
}

#[test]
fn messages_are_delivered_in_order_to_subscribers() {
    let log: Log = Rc::new(RefCell::new(vec![]));
    let mut app: App<(), Boxed, u32, Node> = App::new(());
    let mut a = node("a", &log);
    a.reply_with_done = true;
    app.push_scene(a);
    let mut b = node("b", &log);
    b.listens_to_ticks = false;
    app.push_scene(b);
    drain(&mut app);
    log.borrow_mut().clear();
    app.enqueue(Envelope::new(Tick));
    app.enqueue(Envelope::new(Tick));
    drain(&mut app);
    assert_eq!(
        *log.borrow(),
        vec!["tick a", "tick a", "done a", "done b", "done a", "done b"]
            .into_iter()
            .map(String::from)
            .collect::<Vec<_>>()
    );
    assert!(!app.dispatch_one());
}

#[test]
fn mount_messages_wait_in_the_queue() {
    let log: Log = Rc::new(RefCell::new(vec![]));
    let mut app: App<(), Boxed, u32, Node> = App::new(());
    app.push_scene(node("a", &log));
    assert!(app.dispatch_one());
    assert!(!app.dispatch_one());
    assert_eq!(*log.borrow(), vec!["mount a".to_string(), "done a".to_string()]);
}

#[test]
fn control_c_quits() {
    let log: Log = Rc::new(RefCell::new(vec![]));
    let mut app: App<(), Boxed, u32, Node> = App::new(());
    app.push_scene(node("a", &log));
    let r = app.handle_input(&KeyInput { code: KeyCode::Char('c'), ctrl: true });
    assert!(matches!(r, InputOutcome::Done));
    assert!(!app.running());
    assert_eq!(*log.borrow(), vec!["mount a".to_string()]);
}

#[test]
fn keys_follow_the_active_children() {
    let mut app: App<(), Boxed, u32, ConsoleScene> = App::new(());
    let leaf = app.register_scene(tabbed(&[]));
    let top = app.push_scene(tabbed(&[leaf]));
    assert!(matches!(app.handle_input(&key('x')), InputOutcome::Handled(Effect::Nothing)));
    assert!(!app.contains(leaf));
    assert!(app.contains(top));
    assert!(app.running());
}

#[test]
fn consumed_keys_stop_the_walk() {
    let mut app: App<(), Boxed, u32, ConsoleScene> = App::new(());
    let first = app.register_scene(tabbed(&[]));
    let second = app.register_scene(test_scene());
    let top = app.push_scene(tabbed(&[first, second]));
    let ctrl_2 = KeyInput { code: KeyCode::Char('2'), ctrl: true };
    assert!(matches!(app.handle_input(&ctrl_2), InputOutcome::Done));
    assert!(app.contains(first));
    match app.scene(top) {
        Some(ConsoleScene::Tabbed(t)) => assert_eq!(t.active(), 1),
        _ => panic!("expected the tabbed scene"),
    }
    assert!(matches!(app.handle_input(&key('x')), InputOutcome::Handled(Effect::Nothing)));
    assert!(app.contains(first) && app.contains(second));
}

#[test]
fn consuming_scene_keeps_the_key() {
    let log: Log = Rc::new(RefCell::new(vec![]));
    let mut app: App<(), Boxed, u32, Node> = App::new(());
    let mut top = node("top", &log);
    top.consume = true;
    app.push_scene(top);
    log.borrow_mut().clear();
    assert!(matches!(app.handle_input(&key('x')), InputOutcome::Done));
    assert_eq!(*log.borrow(), vec!["intercept top".to_string()]);
}

#[test]
fn the_leaf_handles_the_key() {
    let log: Log = Rc::new(RefCell::new(vec![]));
    let mut app: App<(), Boxed, u32, Node> = App::new(());
    let mut top = node("top", &log);
    top.action = Some(Action::RunJob(Command::new("true")));
    app.push_scene(top);
    log.borrow_mut().clear();
    match app.handle_input(&key('x')) {
        InputOutcome::Handled(Effect::RunJob(c)) => assert_eq!(c.program, "true"),
        _ => panic!("expected a job to run"),
    }
    assert_eq!(*log.borrow(), vec!["intercept top", "key top"].into_iter().map(String::from).collect::<Vec<_>>());
}

#[test]
fn keys_without_scenes_do_nothing() {
    let mut app: App<(), Boxed, u32, Node> = App::new(());
    assert!(matches!(app.handle_input(&key('x')), InputOutcome::Done));
    assert!(app.running());
}

#[test]
fn actions_are_applied() {
    let log: Log = Rc::new(RefCell::new(vec![]));
    let mut app: App<(), Boxed, u32, Node> = App::new(());
    let a = app.push_scene(node("a", &log));
    assert!(matches!(app.apply(a, Action::Push(7)), Effect::Spawn(7)));
    assert!(matches!(app.apply(a, Action::Nothing), Effect::Nothing));
    assert!(app.contains(a));
    let mut top = node("top", &log);
    top.action = Some(Action::Pop);
    let top = app.push_scene(top);
    assert!(matches!(app.handle_input(&key('q')), InputOutcome::Handled(Effect::Nothing)));
    assert!(!app.contains(top));
    assert_eq!(app.order(), &vec![a]);
    let mut q = node("q", &log);
    q.action = Some(Action::Quit);
    app.push_scene(q);
    app.handle_input(&key('q'));
    assert!(!app.running());
}

#[test]
fn bus_subscriptions() {
    let mut bus: Bus<Boxed> = Bus::new();
    let t = TypeId::of::<Tick>();
    let d = TypeId::of::<JobDone>();
    bus.subscribe(t, SceneId(1));
    bus.subscribe(d, SceneId(2));
    bus.subscribe(t, SceneId(2));
    assert_eq!(bus.subscribers_of(&t), vec![SceneId(1), SceneId(2)]);
    bus.unsubscribe(SceneId(1));
    assert_eq!(bus.subscribers_of(&t), vec![SceneId(2)]);
    assert_eq!(bus.subscribers_of(&d), vec![SceneId(2)]);
    bus.unsubscribe(SceneId(2));
    assert!(bus.subscribers_of(&t).is_empty());
    bus.enqueue(Envelope::new(Tick));
    assert_eq!(bus.pop().unwrap().tid, t);
    assert!(bus.pop().is_none());
}

#[test]
fn unsubscribe_undoes_subscribe() {
    let mut bus: Bus<Boxed> = Bus::new();
    let t = TypeId::of::<Tick>();
    let d = TypeId::of::<JobDone>();
    bus.subscribe(t, SceneId(1));
    bus.subscribe(d, SceneId(2));
    bus.subscribe(t, SceneId(3));
    bus.unsubscribe(SceneId(3));
    assert_eq!(bus.subscribers_of(&t), vec![SceneId(1)]);
    assert_eq!(bus.subscribers_of(&d), vec![SceneId(2)]);
}

#[test]
fn next_id_is_never_in_use() {
    let log: Log = Rc::new(RefCell::new(vec![]));
    let mut app: App<(), Boxed, u32, Node> = App::new(());
    let a = app.push_scene(node("a", &log));
    app.close_scene(a);
    assert!(!app.contains(SceneId(app.next_id())));
    let b = app.push_scene(node("b", &log));
    assert_ne!(a, b);
    assert!(!app.contains(SceneId(app.next_id())));
}

#[test]
fn control_c_quits_whatever_the_scenes() {
    let mut app: App<(), Boxed, u32, ConsoleScene> = App::new(());
    let a = app.register_scene(tabbed(&[SceneId(2)]));
    app.push_scene(tabbed(&[a]));
    let r = app.handle_input(&KeyInput { code: KeyCode::Char('c'), ctrl: true });
    assert!(matches!(r, InputOutcome::Done));
    assert!(!app.running());
}

#[test]
fn a_walk_that_comes_back_stops() {
    let mut app: App<(), Boxed, u32, ConsoleScene> = App::new(());
    let a = app.register_scene(tabbed(&[SceneId(2)]));
    let b = app.push_scene(tabbed(&[a]));
    assert!(matches!(app.handle_input(&key('x')), InputOutcome::Done));
    assert!(app.contains(a) && app.contains(b));
    assert!(app.running());
    let ctrl_tab = KeyInput { code: KeyCode::Tab, ctrl: true };
    assert!(matches!(app.handle_input(&ctrl_tab), InputOutcome::Done));
}
