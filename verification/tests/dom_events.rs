use volki_web::dom::Document;
use volki_web::dom::events::{Event, ListenerOptions, CallbackRegistry, EventCallback};

use std::cell::Cell;
use std::rc::Rc;

/// Test callbacks: count invocations, stop propagation, or do nothing.
enum Handler {
    Count(Rc<Cell<usize>>),
    Stop,
    Noop,
}

impl EventCallback for Handler {
    fn call(&self, event: &mut Event) {
        match self {
            Handler::Count(c) => c.set(c.get() + 1),
            Handler::Stop => event.stop_propagation(),
            Handler::Noop => {}
        }
    }
}

#[test]
fn test_add_remove_listener() {
    let mut doc = Document::new();
    let div = doc.create_element("div");
    let opts = ListenerOptions::new();
    doc.add_event_listener(div, "click", 1, &opts);
    assert_eq!(doc.nodes[div.0].event_listeners.len(), 1);

    doc.remove_event_listener(div, "click", 1, false);
    assert_eq!(doc.nodes[div.0].event_listeners.len(), 0);
}

#[test]
fn test_dispatch_event() {
    let dispatch_ctr = Rc::new(Cell::new(0usize));

    let mut doc = Document::new();
    let div = doc.create_element("div");
    doc.append_child(doc.root, div);

    let mut registry = CallbackRegistry::new();
    let cb_id = registry.register(Handler::Count(dispatch_ctr.clone()));

    let opts = ListenerOptions::new();
    doc.add_event_listener(div, "click", cb_id, &opts);

    let before = dispatch_ctr.get();
    let mut event = Event::new("click", div, true, false);
    doc.dispatch_event(&mut event, &registry);

    assert!(dispatch_ctr.get() > before);
}

#[test]
fn test_event_bubbling() {
    let bubble_ctr = Rc::new(Cell::new(0usize));

    let mut doc = Document::new();
    let parent = doc.create_element("div");
    let child = doc.create_element("span");
    doc.append_child(doc.root, parent);
    doc.append_child(parent, child);

    let mut registry = CallbackRegistry::new();
    let cb_id = registry.register(Handler::Count(bubble_ctr.clone()));

    let opts = ListenerOptions::new();
    doc.add_event_listener(parent, "click", cb_id, &opts);

    let before = bubble_ctr.get();
    let mut event = Event::new("click", child, true, false);
    doc.dispatch_event(&mut event, &registry);

    assert!(bubble_ctr.get() > before);
}

#[test]
fn test_stop_propagation() {
    let stop_ctr = Rc::new(Cell::new(0usize));

    let mut doc = Document::new();
    let parent = doc.create_element("div");
    let child = doc.create_element("span");
    doc.append_child(doc.root, parent);
    doc.append_child(parent, child);

    let mut registry = CallbackRegistry::new();
    let stop_id = registry.register(Handler::Stop);
    let count_id = registry.register(Handler::Count(stop_ctr.clone()));

    let opts = ListenerOptions::new();
    doc.add_event_listener(child, "click", stop_id, &opts);
    doc.add_event_listener(parent, "click", count_id, &opts);

    let before = stop_ctr.get();
    let mut event = Event::new("click", child, true, false);
    doc.dispatch_event(&mut event, &registry);

    assert_eq!(stop_ctr.get(), before);
}

#[test]
fn test_once_listener() {
    let mut doc = Document::new();
    let div = doc.create_element("div");
    doc.append_child(doc.root, div);

    let registry: CallbackRegistry<Handler> = CallbackRegistry::new();

    let opts = ListenerOptions::new().once();
    doc.add_event_listener(div, "click", 99, &opts);
    assert_eq!(doc.nodes[div.0].event_listeners.len(), 1);

    let mut event = Event::new("click", div, true, false);
    doc.dispatch_event(&mut event, &registry);

    // Once listener should be removed after dispatch
    assert_eq!(doc.nodes[div.0].event_listeners.len(), 0);
}

#[test]
fn test_callback_registry() {
    let mut registry = CallbackRegistry::new();
    let id = registry.register(Handler::Noop);
    assert!(id > 0);
    registry.unregister(id);
}

#[test]
fn test_prevent_default() {
    let mut doc = Document::new();
    let div = doc.create_element("div");
    let mut event = Event::new("click", div, true, true);
    event.prevent_default();
    assert!(event.default_prevented);

    let mut event2 = Event::new("click", div, true, false);
    event2.prevent_default();
    assert!(!event2.default_prevented); // not cancelable
}

#[test]
fn test_dispatch_already_stopped_fires_nothing() {
    let mut doc = Document::new();
    let div = doc.create_element("div");
    doc.append_child(doc.root, div);
    let count = Rc::new(Cell::new(0));
    let mut registry = CallbackRegistry::new();
    let id = registry.register(Handler::Count(count.clone()));
    doc.add_event_listener(div, "click", id, &ListenerOptions::new().once());
    let mut event = Event::new("click", div, true, false);
    event.stop_propagation();
    doc.dispatch_event(&mut event, &registry);
    assert_eq!(count.get(), 0);
    assert_eq!(doc.nodes[div.0].event_listeners.len(), 1);
}

#[test]
fn test_dispatch_removes_fired_once_listener() {
    let mut doc = Document::new();
    let div = doc.create_element("div");
    doc.append_child(doc.root, div);
    let count = Rc::new(Cell::new(0));
    let mut registry = CallbackRegistry::new();
    let id = registry.register(Handler::Count(count.clone()));
    doc.add_event_listener(div, "click", id, &ListenerOptions::new().once());
    let mut event = Event::new("click", div, true, false);
    doc.dispatch_event(&mut event, &registry);
    assert_eq!(count.get(), 1);
    assert_eq!(doc.nodes[div.0].event_listeners.len(), 0);
}

#[test]
fn test_dispatch_on_detached_target_keeps_other_listeners() {
    let mut doc = Document::new();
    let div = doc.create_element("div");
    let count = Rc::new(Cell::new(0));
    let mut registry = CallbackRegistry::new();
    let once_id = registry.register(Handler::Count(count.clone()));
    let keep_id = registry.register(Handler::Count(count.clone()));
    doc.add_event_listener(div, "click", once_id, &ListenerOptions::new().once());
    doc.add_event_listener(div, "click", keep_id, &ListenerOptions::new());
    doc.add_event_listener(div, "keydown", once_id, &ListenerOptions::new().once());
    let mut event = Event::new("click", div, false, false);
    doc.dispatch_event(&mut event, &registry);
    assert_eq!(count.get(), 2);
    let ls = &doc.nodes[div.0].event_listeners;
    assert_eq!(ls.len(), 2);
    assert_eq!(ls[0].callback_id, keep_id);
    assert_eq!(ls[1].event_type.as_str(), "keydown");
}

/// Test callback that appends its tag to a shared trace, optionally stopping propagation.
struct Tracer {
    tag: usize,
    stop: bool,
    trace: Rc<std::cell::RefCell<Vec<usize>>>,
}

impl EventCallback for Tracer {
    fn call(&self, event: &mut Event) {
        self.trace.borrow_mut().push(self.tag);
        if self.stop {
            event.stop_propagation();
        }
    }
}

fn traced_tree(stop_at: usize) -> (Vec<usize>, Document) {
    let trace = Rc::new(std::cell::RefCell::new(Vec::new()));
    let mut doc = Document::new();
    let outer = doc.create_element("div");
    let inner = doc.create_element("p");
    let leaf = doc.create_element("span");
    doc.append_child(doc.root, outer);
    doc.append_child(outer, inner);
    doc.append_child(inner, leaf);
    let mut registry = CallbackRegistry::new();
    let mut reg = |tag: usize| registry.register(Tracer { tag, stop: tag == stop_at, trace: trace.clone() });
    let cap_outer = reg(1);
    let cap_inner = reg(2);
    let at_leaf_a = reg(3);
    let at_leaf_b = reg(4);
    let bub_inner = reg(5);
    let bub_outer = reg(6);
    let other_type = reg(7);
    doc.add_event_listener(outer, "click", bub_outer, &ListenerOptions::new());
    doc.add_event_listener(outer, "click", cap_outer, &ListenerOptions::new().capture());
    doc.add_event_listener(inner, "click", bub_inner, &ListenerOptions::new());
    doc.add_event_listener(inner, "click", cap_inner, &ListenerOptions::new().capture());
    doc.add_event_listener(inner, "keyup", other_type, &ListenerOptions::new());
    doc.add_event_listener(leaf, "click", at_leaf_a, &ListenerOptions::new().capture());
    doc.add_event_listener(leaf, "click", at_leaf_b, &ListenerOptions::new());
    let mut event = Event::new("click", leaf, true, false);
    doc.dispatch_event(&mut event, &registry);
    let out = trace.borrow().clone();
    (out, doc)
}

#[test]
fn test_dispatch_order_capture_target_bubble() {
    let (trace, _) = traced_tree(0);
    assert_eq!(trace, vec![1, 2, 3, 4, 5, 6]);
}

#[test]
fn test_dispatch_stop_cuts_after_node() {
    let (trace, _) = traced_tree(3);
    assert_eq!(trace, vec![1, 2, 3, 4]);
    let (trace, _) = traced_tree(2);
    assert_eq!(trace, vec![1, 2]);
}
