use std::cell::RefCell;
use std::rc::Rc;

use common::reactive::{run, Actor, ActorErr, EventDispatcher, Message, TestActor};

pub struct CountingActor {
    seen: Rc<RefCell<Vec<String>>>,
}

impl Actor<Message, ActorErr> for CountingActor {
    fn on_receive(&mut self, m: &Message) -> Result<(), ActorErr> {
        match m {
            Message::Ask(s) => {
                self.seen.borrow_mut().push(s.clone());
                Ok(())
            },
            Message::Others => Err(ActorErr::Failure("unexpected".to_string())),
        }
    }
}

#[test]
fn event_dispatcher_delivers_and_joins() {
    let seen = Rc::new(RefCell::new(Vec::new()));
    let actors = vec![CountingActor { seen: seen.clone() }];
    let mut dispatcher = EventDispatcher::new(actors);

    dispatcher.send(Message::ask("abc"));
    run(&mut dispatcher);
    dispatcher.stop();
    let r = dispatcher.join();
    assert!(r.is_ok());
    assert_eq!(*seen.borrow(), vec!["abc".to_string()]);
}

#[test]
fn event_dispatcher_fails_fast() {
    let seen = Rc::new(RefCell::new(Vec::new()));
    let actors = vec![CountingActor { seen: seen.clone() }];
    let mut dispatcher = EventDispatcher::new(actors);

    dispatcher.send(Message::ask("one"));
    dispatcher.send(Message::Others);
    dispatcher.send(Message::ask("two"));
    run(&mut dispatcher);
    let r = dispatcher.join();
    match r {
        Err(ActorErr::Failure(s)) => assert_eq!(s, "unexpected"),
        _ => panic!("expected a failure"),
    }
    assert_eq!(*seen.borrow(), vec!["one".to_string()]);
}

#[test]
fn test_actor_acknowledges_asks() {
    let mut dispatcher = EventDispatcher::new(vec![TestActor {}]);
    dispatcher.send(Message::ask("hello"));
    run(&mut dispatcher);
    dispatcher.stop();
    assert!(dispatcher.join().is_ok());
}

#[test]
fn test_actor_reports_unknown_messages() {
    let mut dispatcher = EventDispatcher::new(vec![TestActor {}]);
    dispatcher.send(Message::Others);
    run(&mut dispatcher);
    match dispatcher.join() {
        Err(ActorErr::Failure(s)) => assert_eq!(s, "unknown message"),
        _ => panic!("expected a failure"),
    }
}

#[test]
fn message_ask_wraps_the_text() {
    match Message::ask("ping") {
        Message::Ask(s) => assert_eq!(s, "ping"),
        Message::Others => panic!("wrong variant"),
    }
}
