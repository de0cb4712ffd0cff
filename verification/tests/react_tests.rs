use std::cell::RefCell;
use std::rc::Rc;

use common::react::actor::{Actor, ActorContext, ActorUri};
use common::react::dispatcher::{run, ActorPair, AsyncDispatcher, Dispatcher};
use common::react::{ActorSystem, Error, Predicate};

fn ctx(path: &str) -> ActorContext {
    ActorContext {
        uri: ActorUri { host_name: "localhost".to_string(), port: 8080, path: path.to_string() },
    }
}

#[derive(Debug, PartialEq, Eq, Clone)]
pub struct Fault(String);

impl Error for Fault {}

/// Records every message it receives; errors on messages containing "bad"
/// when asked to.
pub struct Recorder {
    context: ActorContext,
    seen: Rc<RefCell<Vec<String>>>,
    fail_on_bad: bool,
}

impl Actor<String, Fault> for Recorder {
    fn context(&self) -> &ActorContext {
        &self.context
    }

    fn accept(&self, _m: &String) -> bool {
        true
    }

    fn on_receive(&mut self, m: &String) -> Result<(), Fault> {
        self.seen.borrow_mut().push(m.clone());
        if self.fail_on_bad && m.contains("bad") {
            Err(Fault(m.clone()))
        } else {
            Ok(())
        }
    }
}

/// Accepts only messages containing its needle.
pub struct ContainsPred {
    needle: String,
}

impl Predicate<String> for ContainsPred {
    fn holds(&self, m: &String) -> bool {
        m.contains(self.needle.as_str())
    }

    fn test(&self, m: &String) -> bool {
        m.contains(self.needle.as_str())
    }
}

fn recorder(seen: &Rc<RefCell<Vec<String>>>, fail_on_bad: bool) -> Recorder {
    Recorder { context: ctx("/recorder"), seen: seen.clone(), fail_on_bad }
}

#[test]
fn mod_test() {
    let system: ActorSystem<String, Fault, Recorder, ContainsPred> = ActorSystem::new("test");
    let _dispatcher = system.dispatcher();
}

#[test]
fn bus_delivers_in_order_and_join_is_ok() {
    // Bus started with no actors; subscribe(A, none); send "x"; send "y";
    // the worker runs; stop; join: A received "x" then "y", join returns Ok.
    let seen = Rc::new(RefCell::new(Vec::new()));
    let mut d: AsyncDispatcher<String, Fault, Recorder, ContainsPred> = AsyncDispatcher::new();
    d.subscribe(recorder(&seen, false), None);
    d.send("x".to_string());
    d.send("y".to_string());
    run(&mut d);
    d.stop();
    let r = d.join();
    assert_eq!(r, Ok(()));
    assert_eq!(*seen.borrow(), vec!["x".to_string(), "y".to_string()]);
}

#[test]
fn bus_fails_fast_and_join_returns_the_error() {
    // Actor B errors on any message containing "bad": B receives "ok" and
    // "bad"; "ok2" is never delivered; join returns that exact error.
    let seen = Rc::new(RefCell::new(Vec::new()));
    let mut d: AsyncDispatcher<String, Fault, Recorder, ContainsPred> = AsyncDispatcher::new();
    d.subscribe(recorder(&seen, true), None);
    d.send("ok".to_string());
    d.send("bad".to_string());
    d.send("ok2".to_string());
    run(&mut d);
    let r = d.join();
    assert_eq!(r, Err(Fault("bad".to_string())));
    assert_eq!(*seen.borrow(), vec!["ok".to_string(), "bad".to_string()]);
}

#[test]
fn predicate_filters_messages() {
    // An actor with a predicate never receives a message the predicate
    // refuses; an actor without one receives everything.
    let picky_seen = Rc::new(RefCell::new(Vec::new()));
    let open_seen = Rc::new(RefCell::new(Vec::new()));
    let mut d: AsyncDispatcher<String, Fault, Recorder, ContainsPred> = AsyncDispatcher::new();
    d.subscribe(recorder(&picky_seen, false), Some(ContainsPred { needle: "keep".to_string() }));
    d.subscribe(recorder(&open_seen, false), None);
    d.send("keep me".to_string());
    d.send("drop me".to_string());
    d.send("also keep".to_string());
    run(&mut d);
    d.stop();
    assert_eq!(d.join(), Ok(()));
    assert_eq!(*picky_seen.borrow(), vec!["keep me".to_string(), "also keep".to_string()]);
    assert_eq!(
        *open_seen.borrow(),
        vec!["keep me".to_string(), "drop me".to_string(), "also keep".to_string()]
    );
}

#[test]
fn late_subscriber_misses_earlier_messages() {
    let early_seen = Rc::new(RefCell::new(Vec::new()));
    let late_seen = Rc::new(RefCell::new(Vec::new()));
    let mut d: AsyncDispatcher<String, Fault, Recorder, ContainsPred> = AsyncDispatcher::new();
    d.subscribe(recorder(&early_seen, false), None);
    d.send("first".to_string());
    run(&mut d);
    d.subscribe(recorder(&late_seen, false), None);
    d.send("second".to_string());
    run(&mut d);
    d.stop();
    assert_eq!(d.join(), Ok(()));
    assert_eq!(*early_seen.borrow(), vec!["first".to_string(), "second".to_string()]);
    assert_eq!(*late_seen.borrow(), vec!["second".to_string()]);
}

#[test]
fn stop_is_idempotent() {
    let seen = Rc::new(RefCell::new(Vec::new()));
    let mut d: AsyncDispatcher<String, Fault, Recorder, ContainsPred> = AsyncDispatcher::new();
    d.subscribe(recorder(&seen, false), None);
    d.send("x".to_string());
    run(&mut d);
    d.stop();
    d.stop();
    d.stop();
    let r = d.join();
    assert_eq!(r, Ok(()));
    assert_eq!(*seen.borrow(), vec!["x".to_string()]);
}

#[test]
fn send_after_failure_changes_nothing() {
    let seen = Rc::new(RefCell::new(Vec::new()));
    let mut d: AsyncDispatcher<String, Fault, Recorder, ContainsPred> = AsyncDispatcher::new();
    d.subscribe(recorder(&seen, true), None);
    d.send("bad".to_string());
    run(&mut d);
    d.send("after".to_string());
    d.subscribe(recorder(&seen, false), None);
    run(&mut d);
    let r = d.join();
    assert_eq!(r, Err(Fault("bad".to_string())));
    assert_eq!(*seen.borrow(), vec!["bad".to_string()]);
}

#[test]
fn actor_pair_accept_consults_the_filter() {
    let seen = Rc::new(RefCell::new(Vec::new()));
    let pair = ActorPair::new(
        recorder(&seen, false),
        Some(ContainsPred { needle: "yes".to_string() }),
    );
    assert!(pair.accept(&"ah yes".to_string()));
    assert!(!pair.accept(&"no".to_string()));
    let open_pair: ActorPair<Recorder, ContainsPred> = ActorPair::new(recorder(&seen, false), None);
    assert!(open_pair.accept(&"anything".to_string()));
}

#[test]
fn actor_uri_displays_itself() {
    let uri = ActorUri {
        host_name: "node1".to_string(),
        port: 8888,
        path: "react/members".to_string(),
    };
    assert_eq!(uri.display(), "react://node1:8888/react/members");
    let negative = ActorUri { host_name: "h".to_string(), port: -2147483648, path: "p".to_string() };
    assert_eq!(negative.display(), "react://h:-2147483648/p");
}
