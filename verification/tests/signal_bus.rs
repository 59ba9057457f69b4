use std::cell::RefCell;
use std::rc::Rc;

use craft::json::{parse_json, Json};
use craft::signal::SignalBus;

type Handler = Box<dyn Fn(&Json)>;

fn doc(text: &str) -> Json {
    parse_json(text).expect("test JSON parses")
}

#[test]
fn declare_assigns_unique_ids() {
    let mut bus: SignalBus<Handler> = SignalBus::new();
    let a = bus.declare("player_died");
    let b = bus.declare("enemy_spawned");
    assert_ne!(a, b);
    assert_eq!(bus.resolve("player_died"), Some(a));
    assert_eq!(bus.resolve("enemy_spawned"), Some(b));
    assert_eq!(bus.name_of(a), Some("player_died"));
    assert_eq!(bus.name_of(b), Some("enemy_spawned"));
}

#[test]
fn declare_is_idempotent() {
    let mut bus: SignalBus<Handler> = SignalBus::new();
    let a = bus.declare("foo");
    let b = bus.declare("foo");
    assert_eq!(a, b);
}

#[test]
fn subscribe_and_deliver_runs_handlers() {
    let mut bus: SignalBus<Handler> = SignalBus::new();
    let sig = bus.declare("hit");
    let log = Rc::new(RefCell::new(Vec::<String>::new()));
    let log_a = log.clone();
    let log_b = log.clone();
    bus.subscribe(sig, Box::new(move |payload: &Json| {
        log_a.borrow_mut().push(format!("a:{}", craft::json::to_json_text(payload)));
    }));
    bus.subscribe(sig, Box::new(move |payload: &Json| {
        log_b.borrow_mut().push(format!("b:{}", craft::json::to_json_text(payload)));
    }));
    assert_eq!(bus.subscriber_count(sig), 2);
    bus.emit(sig, doc(r#"{"damage": 5}"#));
    assert_eq!(bus.pending_count(), 1);
    let delivered = bus.deliver_pending();
    assert_eq!(delivered, 1);
    assert_eq!(bus.pending_count(), 0);
    let entries = log.borrow().clone();
    assert_eq!(entries.len(), 2);
    assert!(entries.iter().any(|s| s.starts_with("a:")));
    assert!(entries.iter().any(|s| s.starts_with("b:")));
}

#[test]
fn emit_does_not_deliver_same_tick() {
    let mut bus: SignalBus<Handler> = SignalBus::new();
    let sig = bus.declare("damage");
    let count = Rc::new(RefCell::new(0u32));
    let count_inner = count.clone();
    bus.subscribe(sig, Box::new(move |_: &Json| {
        *count_inner.borrow_mut() += 1;
    }));
    bus.emit(sig, doc("1"));
    assert_eq!(*count.borrow(), 0, "subscribers must not fire on the emit tick (next-tick delivery)");
    bus.emit(sig, doc("2"));
    assert_eq!(*count.borrow(), 0, "still no delivery on emit tick");
    bus.deliver_pending();
    assert_eq!(*count.borrow(), 2);
}

#[test]
fn emit_with_no_subscribers_is_harmless() {
    let mut bus: SignalBus<Handler> = SignalBus::new();
    let sig = bus.declare("ghost");
    bus.emit(sig, doc("null"));
    assert_eq!(bus.deliver_pending(), 1);
}

#[test]
fn pending_signals_buffer_in_order() {
    let mut bus: SignalBus<Handler> = SignalBus::new();
    let sig = bus.declare("step");
    let log = Rc::new(RefCell::new(Vec::<i64>::new()));
    let log_inner = log.clone();
    bus.subscribe(sig, Box::new(move |payload: &Json| {
        if let Json::Int(n) = payload {
            log_inner.borrow_mut().push(*n);
        }
    }));
    for n in 0..5 {
        bus.emit(sig, Json::Int(n));
    }
    bus.deliver_pending();
    assert_eq!(*log.borrow(), vec![0, 1, 2, 3, 4]);
}

#[test]
fn handlers_for_unrelated_signals_do_not_fire() {
    let mut bus: SignalBus<Handler> = SignalBus::new();
    let a = bus.declare("a");
    let b = bus.declare("b");
    let count = Rc::new(RefCell::new(0u32));
    let count_inner = count.clone();
    bus.subscribe(a, Box::new(move |_: &Json| *count_inner.borrow_mut() += 1));
    bus.emit(b, doc("null"));
    bus.deliver_pending();
    assert_eq!(*count.borrow(), 0);
}

#[test]
fn deliver_clears_pending() {
    let mut bus: SignalBus<Handler> = SignalBus::new();
    let sig = bus.declare("x");
    bus.emit(sig, doc("null"));
    bus.deliver_pending();
    assert_eq!(bus.pending_count(), 0);
    let again = bus.deliver_pending();
    assert_eq!(again, 0);
}

#[test]
fn ids_are_declaration_indices() {
    let mut bus: SignalBus<Handler> = SignalBus::new();
    let a = bus.declare("first");
    let b = bus.declare("second");
    let again = bus.declare("first");
    assert_eq!(a.raw(), 0);
    assert_eq!(b.raw(), 1);
    assert_eq!(again.raw(), 0);
    assert_eq!(bus.resolve("third"), None);
}
