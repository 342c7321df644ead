use std::cell::RefCell;
use std::rc::Rc;

use unreact::server::clients::{
    greeting, ClientEvent, ClientHandle, ClientRegistry, RELOAD_MESSAGE,
};

/// A client that keeps what was pushed to it.
#[derive(Clone)]
struct Recorder {
    inbox: Rc<RefCell<Vec<String>>>,
    open: bool,
}

impl Recorder {
    fn new() -> Self {
        Recorder { inbox: Rc::new(RefCell::new(Vec::new())), open: true }
    }

    fn closed() -> Self {
        Recorder { inbox: Rc::new(RefCell::new(Vec::new())), open: false }
    }

    fn received(&self) -> Vec<String> {
        self.inbox.borrow().clone()
    }
}

impl ClientHandle for Recorder {
    fn push_text(&self, text: &str) -> bool {
        if self.open {
            self.inbox.borrow_mut().push(text.to_string());
        }
        self.open
    }
}

#[test]
fn broadcast_reaches_each_registered_client_once() {
    let clients: Vec<Recorder> = (0..4).map(|_| Recorder::new()).collect();
    let mut registry = ClientRegistry::new();
    for (id, client) in clients.iter().enumerate() {
        registry.connect(id as u64, client.clone());
    }
    assert!(registry.disconnect(3));
    assert_eq!(registry.len(), 3);

    let done = registry.broadcast_reload();

    let mut targets = done.targets.clone();
    targets.sort();
    assert_eq!(targets, vec![0, 1, 2]);
    assert_eq!(done.text, "reload");
    assert_eq!(done.answers, vec![true, true, true]);
    assert_eq!(done.accepted, 3);
    for client in &clients[..3] {
        assert_eq!(client.received(), vec!["reload".to_string()]);
    }
    assert!(clients[3].received().is_empty());
    assert_eq!(RELOAD_MESSAGE, "reload");
}

#[test]
fn failed_send_does_not_stop_the_broadcast() {
    let alive = Recorder::new();
    let dead = Recorder::closed();
    let also_alive = Recorder::new();
    let mut registry = ClientRegistry::new();
    registry.connect(1, alive.clone());
    registry.connect(2, dead.clone());
    registry.connect(3, also_alive.clone());

    let done = registry.broadcast("reload");

    assert_eq!(done.targets.len(), 3);
    assert_eq!(done.accepted, 2);
    assert_eq!(done.answers.iter().filter(|took| **took).count(), 2);
    let dead_at = done.targets.iter().position(|id| *id == 2).unwrap();
    assert!(!done.answers[dead_at]);
    assert_eq!(alive.received(), vec!["reload".to_string()]);
    assert_eq!(also_alive.received(), vec!["reload".to_string()]);
    assert_eq!(registry.len(), 3);
    assert!(registry.contains(2));
}

#[test]
fn registry_holds_connects_without_later_disconnect() {
    let mut registry: ClientRegistry<Recorder> = ClientRegistry::new();
    registry.handle_events(vec![
        ClientEvent::Connect(1, Recorder::new()),
        ClientEvent::Connect(2, Recorder::new()),
        ClientEvent::Message(1),
        ClientEvent::Disconnect(1),
        ClientEvent::Connect(3, Recorder::new()),
        ClientEvent::Disconnect(7),
        ClientEvent::Connect(1, Recorder::new()),
        ClientEvent::Disconnect(2),
    ]);
    assert_eq!(registry.len(), 2);
    let mut ids = registry.ids();
    ids.sort();
    assert_eq!(ids, vec![1, 3]);
    assert!(!registry.contains(2));
    assert!(registry.handle(2).is_none());
    assert!(registry.handle(3).is_some());
}

#[test]
fn duplicate_connect_overwrites_the_handle() {
    let first = Recorder::new();
    let second = Recorder::new();
    let mut registry = ClientRegistry::new();
    registry.handle_event(ClientEvent::Connect(5, first.clone()));
    registry.handle_event(ClientEvent::Connect(5, second.clone()));
    assert_eq!(registry.len(), 1);
    let done = registry.broadcast_reload();
    assert_eq!(done.targets, vec![5]);
    assert!(first.received().is_empty());
    assert_eq!(second.received(), vec!["reload".to_string()]);
    assert!(!registry.disconnect(6));
    assert!(registry.disconnect(5));
    assert!(!registry.disconnect(5));
    assert_eq!(registry.len(), 0);
    assert!(registry.broadcast_reload().targets.is_empty());
}

#[test]
fn new_client_is_greeted_with_the_start_time() {
    let client = Recorder::new();
    let mut registry = ClientRegistry::new();
    assert!(registry.welcome(9, client.clone(), 1_700_000_000));
    assert_eq!(client.received(), vec!["1700000000".to_string()]);
    assert!(registry.contains(9));
    assert!(!registry.welcome(10, Recorder::closed(), 1));
    assert!(registry.contains(10));
    assert_eq!(greeting(0), "0");
    assert_eq!(greeting(-42), "-42");
    assert_eq!(greeting(i64::MIN), i64::MIN.to_string());
    assert_eq!(greeting(i64::MAX), i64::MAX.to_string());
}

#[test]
fn reload_plan_names_each_registered_client_and_the_reload_text() {
    let mut registry = ClientRegistry::new();
    for id in [7u64, 8, 9, 10] {
        registry.connect(id, Recorder::new());
    }
    registry.disconnect(10);

    let (mut targets, text) = registry.reload_plan();
    targets.sort();

    assert_eq!(targets, vec![7, 8, 9]);
    assert_eq!(text, "reload");
}

#[test]
fn delivery_follows_the_plan_it_is_given() {
    let first = Recorder::new();
    let second = Recorder::new();
    let mut registry = ClientRegistry::new();
    registry.connect(1, first.clone());
    registry.connect(2, second.clone());

    let done = registry.deliver(vec![2, 5, 1], "hello");

    assert_eq!(done.targets, vec![2, 5, 1]);
    assert_eq!(done.text, "hello");
    assert_eq!(done.answers, vec![true, false, true]);
    assert_eq!(done.accepted, 2);
    assert_eq!(first.received(), vec!["hello".to_string()]);
    assert_eq!(second.received(), vec!["hello".to_string()]);
}
