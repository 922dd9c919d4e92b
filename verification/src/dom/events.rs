//! Event system: add/remove listeners, dispatch with capture/bubble phases.

use vstd::prelude::*;
use super::Document;
use super::node::{NodeId, NodeData, EventListenerEntry};
use super::attributes::same_links;
use crate::text::str_eq;

verus! {

/// The phase of event dispatch (the DOM numbers are given by `EventPhase::number`).
#[derive(Clone, Copy, PartialEq, Eq, Structural, Debug)]
pub enum EventPhase {
    /// The event is not being dispatched.
    Idle,
    Capturing,
    AtTarget,
    Bubbling,
}

impl EventPhase {
    /// The DOM `eventPhase` number of this phase.
    pub fn number(&self) -> (n: u8)
        ensures
            n == (match *self {
                EventPhase::Idle => 0u8,
                EventPhase::Capturing => 1u8,
                EventPhase::AtTarget => 2u8,
                EventPhase::Bubbling => 3u8,
            }),
    {
        match self {
            EventPhase::Idle => 0,
            EventPhase::Capturing => 1,
            EventPhase::AtTarget => 2,
            EventPhase::Bubbling => 3,
        }
    }
}

/// An event being dispatched through the DOM tree.
pub struct Event {
    pub event_type: String,
    pub target: NodeId,
    pub current_target: NodeId,
    pub phase: EventPhase,
    pub bubbles: bool,
    pub cancelable: bool,
    pub propagation_stopped: bool,
    pub immediate_propagation_stopped: bool,
    pub default_prevented: bool,
    pub timestamp: u64,
}

impl Event {
    /// Creates a new event aimed at `target`.
    pub fn new(event_type: &str, target: NodeId, bubbles: bool, cancelable: bool) -> (e: Self)
        ensures
            e.event_type@ == event_type@,
            e.target == target,
            e.current_target == target,
            e.phase == EventPhase::Idle,
            e.bubbles == bubbles,
            e.cancelable == cancelable,
            !e.propagation_stopped,
            !e.immediate_propagation_stopped,
            !e.default_prevented,
            e.timestamp == 0,
    {
        Event {
            event_type: event_type.to_owned(),
            target,
            current_target: target,
            phase: EventPhase::Idle,
            bubbles,
            cancelable,
            propagation_stopped: false,
            immediate_propagation_stopped: false,
            default_prevented: false,
            timestamp: 0,
        }
    }

    /// Stops further propagation of the event.
    pub fn stop_propagation(&mut self)
        ensures
            *final(self) == (Event { propagation_stopped: true, ..*old(self) }),
    {
        self.propagation_stopped = true;
    }

    /// Stops propagation and prevents other listeners on the same target.
    pub fn stop_immediate_propagation(&mut self)
        ensures
            *final(self) == (Event { propagation_stopped: true, immediate_propagation_stopped: true, ..*old(self) }),
    {
        self.propagation_stopped = true;
        self.immediate_propagation_stopped = true;
    }

    /// Prevents the default action, when the event is cancelable.
    pub fn prevent_default(&mut self)
        ensures
            *final(self) == (Event { default_prevented: old(self).default_prevented || old(self).cancelable, ..*old(self) }),
    {
        if self.cancelable {
            self.default_prevented = true;
        }
    }
}

/// Options for `add_event_listener`.
#[derive(Clone, Copy, PartialEq, Eq, Structural, Debug)]
pub struct ListenerOptions {
    pub capture: bool,
    pub once: bool,
    pub passive: bool,
}

impl ListenerOptions {
    /// All options off.
    pub fn new() -> (o: Self)
        ensures
            o == (ListenerOptions { capture: false, once: false, passive: false }),
    {
        ListenerOptions { capture: false, once: false, passive: false }
    }

    /// Listen during the capture phase.
    pub fn capture(self) -> (o: Self)
        ensures
            o == (ListenerOptions { capture: true, ..self }),
    {
        ListenerOptions { capture: true, ..self }
    }

    /// Remove the listener after it first fires.
    pub fn once(self) -> (o: Self)
        ensures
            o == (ListenerOptions { once: true, ..self }),
    {
        ListenerOptions { once: true, ..self }
    }

    /// The listener promises not to prevent the default action.
    pub fn passive(self) -> (o: Self)
        ensures
            o == (ListenerOptions { passive: true, ..self }),
    {
        ListenerOptions { passive: true, ..self }
    }
}

/// Something that can be called back with an event.
pub trait EventCallback {
    /// Handles `event`; it may stop propagation or prevent the default.
    fn call(&self, event: &mut Event);
}

/// Registry mapping callback ids to callbacks.
pub struct CallbackRegistry<C> {
    callbacks: Vec<(usize, C)>,
    next_id: usize,
}

impl<C> CallbackRegistry<C> {
    /// The ids of the registered callbacks.
    pub closed spec fn ids(&self) -> Seq<usize> {
        Seq::new(self.callbacks@.len(), |i: int| self.callbacks@[i].0)
    }

    /// The id the next registration will get.
    pub closed spec fn next(&self) -> usize {
        self.next_id
    }

    /// Ids are handed out in increasing order and never reused.
    pub closed spec fn wf(&self) -> bool {
        &&& self.next_id >= 1
        &&& forall|i: int| 0 <= i < self.callbacks@.len() ==> 1 <= #[trigger] self.callbacks@[i].0 < self.next_id
        &&& forall|i: int, j: int| 0 <= i < j < self.callbacks@.len() ==> self.callbacks@[i].0 < self.callbacks@[j].0
    }

    /// An empty registry; the first id is 1.
    pub fn new() -> (r: Self)
        ensures
            r.wf(),
            r.ids().len() == 0,
            r.next() == 1,
    {
        CallbackRegistry { callbacks: Vec::new(), next_id: 1 }
    }

    /// Registers a callback and returns its id.
    pub fn register(&mut self, callback: C) -> (id: usize)
        requires
            old(self).wf(),
            old(self).next() < usize::MAX,
        ensures
            final(self).wf(),
            id == old(self).next(),
            id >= 1,
            final(self).next() == id + 1,
            final(self).ids() == old(self).ids().push(id),
    {
        let id = self.next_id;
        self.next_id += 1;
        self.callbacks.push((id, callback));
        proof { assert(self.ids() =~= old(self).ids().push(id)); }
        id
    }

    /// Removes a callback (no effect for an unknown id).
    pub fn unregister(&mut self, id: usize)
        requires
            old(self).wf(),
        ensures
            final(self).wf(),
            final(self).next() == old(self).next(),
            final(self).ids() == (if old(self).ids().contains(id) {
                old(self).ids().remove(old(self).ids().index_of(id))
            } else {
                old(self).ids()
            }),
    {
        match self.position(id) {
            Some(k) => {
                let ghost before = self.ids();
                self.callbacks.remove(k);
                proof {
                    assert(before[k as int] == id);
                    let j = before.index_of(id);
                    assert(before[j] == id);
                    if j < k {
                        assert(self.callbacks@.len() >= 0);
                        assert(old(self).callbacks@[j].0 < old(self).callbacks@[k as int].0);
                    }
                    if k < j {
                        assert(old(self).callbacks@[k as int].0 < old(self).callbacks@[j].0);
                    }
                    assert(self.ids() =~= before.remove(k as int));
                }
            },
            None => {},
        }
    }

    /// The position of the callback registered under `id`.
    fn position(&self, id: usize) -> (r: Option<usize>)
        requires
            self.wf(),
        ensures
            r matches Some(k) ==> k < self.callbacks@.len() && self.callbacks@[k as int].0 == id,
            r is None ==> !self.ids().contains(id),
    {
        let mut i: usize = 0;
        while i < self.callbacks.len()
            invariant
                i <= self.callbacks@.len(),
                forall|k: int| 0 <= k < i ==> self.callbacks@[k].0 != id,
            decreases self.callbacks@.len() - i,
        {
            if self.callbacks[i].0 == id {
                return Some(i);
            }
            i += 1;
        }
        proof {
            if self.ids().contains(id) {
                let k = choose|k: int| 0 <= k < self.ids().len() && self.ids()[k] == id;
                assert(self.callbacks@[k].0 == id);
            }
        }
        None
    }
}

impl<C: EventCallback> CallbackRegistry<C> {
    /// Invokes the callback registered under `id`, if any.
    pub fn invoke(&self, id: usize, event: &mut Event)
        requires
            self.wf(),
        ensures
            !self.ids().contains(id) ==> *final(event) == *old(event),
    {
        match self.position(id) {
            Some(k) => {
                proof { assert(self.ids()[k as int] == id); }
                self.callbacks[k].1.call(event)
            },
            None => {},
        }
    }
}

/// A listener entry as plain values: (type, callback id, capture, once, passive).
pub open spec fn listener_view(e: EventListenerEntry) -> (Seq<char>, usize, bool, bool, bool) {
    (e.event_type@, e.callback_id, e.capture, e.once, e.passive)
}

/// The listeners of a node as plain values.
pub open spec fn listeners_view(s: Seq<EventListenerEntry>) -> Seq<(Seq<char>, usize, bool, bool, bool)> {
    Seq::new(s.len(), |i: int| listener_view(s[i]))
}

/// The listeners other than those of type `t`, callback `cb` and capture flag `capture`.
pub open spec fn listeners_without(
    s: Seq<(Seq<char>, usize, bool, bool, bool)>,
    t: Seq<char>,
    cb: usize,
    capture: bool,
) -> Seq<(Seq<char>, usize, bool, bool, bool)>
    decreases s.len(),
{
    if s.len() == 0 {
        s
    } else {
        let r = listeners_without(s.drop_last(), t, cb, capture);
        let l = s.last();
        if l.0 == t && l.1 == cb && l.2 == capture { r } else { r.push(l) }
    }
}

/// The callback ids of the `once` listeners of `s` that an event of type `t`
/// fires (all of them at the target, else those whose capture flag is `capture`).
pub open spec fn fired_once_ids(s: Seq<(Seq<char>, usize, bool, bool, bool)>, t: Seq<char>, at_target: bool, capture: bool) -> Seq<usize>
    decreases s.len(),
{
    if s.len() == 0 {
        Seq::empty()
    } else {
        let r = fired_once_ids(s.drop_last(), t, at_target, capture);
        let l = s.last();
        if l.0 == t && (at_target || l.2 == capture) && l.3 { r.push(l.1) } else { r }
    }
}

/// The listeners of `s` other than those of type `t` whose callback id is in `ids`.
pub open spec fn listeners_kept(s: Seq<(Seq<char>, usize, bool, bool, bool)>, t: Seq<char>, ids: Seq<usize>) -> Seq<(Seq<char>, usize, bool, bool, bool)>
    decreases s.len(),
{
    if s.len() == 0 {
        s
    } else {
        let r = listeners_kept(s.drop_last(), t, ids);
        let l = s.last();
        if l.0 == t && ids.contains(l.1) { r } else { r.push(l) }
    }
}

/// The callback ids of the listeners in `v` that fire for an event of type `t` at
/// a node visited in the given phase, in insertion order.
pub open spec fn node_fires(s: Seq<(Seq<char>, usize, bool, bool, bool)>, t: Seq<char>, at_target: bool, capture: bool) -> Seq<usize>
    decreases s.len(),
{
    if s.len() == 0 {
        Seq::empty()
    } else {
        let r = node_fires(s.drop_last(), t, at_target, capture);
        let l = s.last();
        if l.0 == t && (at_target || l.2 == capture) { r.push(l.1) } else { r }
    }
}

/// One callback invocation of a dispatch: the node whose listener it was, the
/// callback id, and the event's type, bubbling flag and stop flags right after the call.
pub struct FiredCall {
    pub node: NodeId,
    pub callback_id: usize,
    pub event_type: Seq<char>,
    pub bubbles: bool,
    pub stopped: bool,
    pub immediate: bool,
}

/// The event's type, bubbling flag and stop flags.
pub open spec fn event_state(e: Event) -> (Seq<char>, bool, bool, bool) {
    (e.event_type@, e.bubbles, e.propagation_stopped, e.immediate_propagation_stopped)
}

/// The event state after the last call of `log`, or that of `e0` when there is none.
pub open spec fn state_after(log: Seq<FiredCall>, e0: Event) -> (Seq<char>, bool, bool, bool) {
    if log.len() == 0 {
        event_state(e0)
    } else {
        let c = log.last();
        (c.event_type, c.bubbles, c.stopped, c.immediate)
    }
}

/// The (node, callback id) pairs of a log.
pub open spec fn calls_of(log: Seq<FiredCall>) -> Seq<(NodeId, usize)> {
    Seq::new(log.len(), |k: int| (log[k].node, log[k].callback_id))
}

/// The callbacks `ids`, each as fired at node `n`.
pub open spec fn at_node(n: NodeId, ids: Seq<usize>) -> Seq<(NodeId, usize)> {
    Seq::new(ids.len(), |k: int| (n, ids[k]))
}

/// `a` is a prefix of `b`.
pub open spec fn prefix_of(a: Seq<(NodeId, usize)>, b: Seq<(NodeId, usize)>) -> bool {
    a.len() <= b.len() && b.subrange(0, a.len() as int) == a
}

/// No call of the log left the event with a stop flag set.
pub open spec fn none_stopped(log: Seq<FiredCall>) -> bool {
    forall|k: int| 0 <= k < log.len() ==> !(#[trigger] log[k]).stopped && !log[k].immediate
}

/// Every call of the log left the event's type `t` and bubbling flag `b` as they were.
pub open spec fn keeps_event(log: Seq<FiredCall>, t: Seq<char>, b: bool) -> bool {
    forall|k: int| 0 <= k < log.len() ==> (#[trigger] log[k]).event_type == t && log[k].bubbles == b
}

/// The listeners of node `n` as plain values.
pub open spec fn node_listeners(d: Document, n: NodeId) -> Seq<(Seq<char>, usize, bool, bool, bool)> {
    listeners_view(d.nodes@[n.0 as int].event_listeners@)
}

/// The capture-phase calls at the ancestors `p[i..]` (nearest first), visited from
/// the farthest (the root) down to `p[i]`.
pub open spec fn capture_plan(d: Document, p: Seq<NodeId>, t: Seq<char>, i: int) -> Seq<(NodeId, usize)>
    decreases p.len() - i,
{
    if !(0 <= i < p.len()) {
        Seq::empty()
    } else {
        capture_plan(d, p, t, i + 1) + at_node(p[i], node_fires(node_listeners(d, p[i]), t, false, true))
    }
}

/// The listeners of `n` once its capture-phase `once` listeners of type `t` are gone.
pub open spec fn after_capture(d: Document, n: NodeId, t: Seq<char>) -> Seq<(Seq<char>, usize, bool, bool, bool)> {
    let v = node_listeners(d, n);
    listeners_kept(v, t, fired_once_ids(v, t, false, true))
}

/// The listeners of `n` once its capture-phase and then its bubble-phase `once`
/// listeners of type `t` are gone.
pub open spec fn after_bubble(d: Document, n: NodeId, t: Seq<char>) -> Seq<(Seq<char>, usize, bool, bool, bool)> {
    let v = after_capture(d, n, t);
    listeners_kept(v, t, fired_once_ids(v, t, false, false))
}

/// The listeners of the target once its `once` listeners of type `t` are gone.
pub open spec fn after_target(d: Document, n: NodeId, t: Seq<char>) -> Seq<(Seq<char>, usize, bool, bool, bool)> {
    let v = node_listeners(d, n);
    listeners_kept(v, t, fired_once_ids(v, t, true, false))
}

/// The bubble-phase calls at the ancestors `p[..j]`, nearest first.
pub open spec fn bubble_plan(d: Document, p: Seq<NodeId>, t: Seq<char>, j: int) -> Seq<(NodeId, usize)>
    decreases j,
{
    if j <= 0 || j > p.len() {
        Seq::empty()
    } else {
        bubble_plan(d, p, t, j - 1) + at_node(p[j - 1], node_fires(after_capture(d, p[j - 1], t), t, false, false))
    }
}

/// Every callback that dispatching an event of type `t` at `target` invokes when
/// nothing stops it: the capture listeners from the root down to the target's
/// parent, then the target's listeners in insertion order, then, for a bubbling
/// event, the other listeners from the parent up to the root.
pub open spec fn dispatch_plan(d: Document, target: NodeId, t: Seq<char>, bubbles: bool) -> Seq<(NodeId, usize)> {
    let p = d.ancestors_of(target);
    capture_plan(d, p, t, 0) + at_node(target, node_fires(node_listeners(d, target), t, true, false))
        + (if bubbles { bubble_plan(d, p, t, p.len() as int) } else { Seq::empty() })
}

/// A visit that appends calls `s` (a prefix of that node's plan `f`) keeps the log a
/// prefix of the plan, and whole when both were whole.
proof fn lemma_log_step(c: Seq<(NodeId, usize)>, full: Seq<(NodeId, usize)>, s: Seq<(NodeId, usize)>, f: Seq<(NodeId, usize)>)
    requires
        prefix_of(c, full),
        prefix_of(s, f),
        c != full ==> s.len() == 0,
    ensures
        prefix_of(c + s, full + f),
        (c == full && s == f) ==> c + s == full + f,
{
    if c == full {
        assert((full + f).subrange(0, (c + s).len() as int) =~= c + s);
    } else {
        assert(c + s =~= c);
        assert((full + f).subrange(0, c.len() as int) =~= full.subrange(0, c.len() as int));
    }
}

/// Each stage of the capture plan is a prefix of the earlier ones.
proof fn lemma_capture_prefix(d: Document, p: Seq<NodeId>, t: Seq<char>, i: int)
    requires
        0 <= i <= p.len(),
    ensures
        prefix_of(capture_plan(d, p, t, i), capture_plan(d, p, t, 0)),
    decreases i,
{
    if i == 0 {
        assert(capture_plan(d, p, t, 0).subrange(0, capture_plan(d, p, t, 0).len() as int) =~= capture_plan(d, p, t, 0));
    } else {
        lemma_capture_prefix(d, p, t, i - 1);
        let a = capture_plan(d, p, t, i);
        let b = capture_plan(d, p, t, i - 1);
        assert(b == a + at_node(p[i - 1], node_fires(node_listeners(d, p[i - 1]), t, false, true)));
        assert(b.subrange(0, a.len() as int) =~= a);
        let z = capture_plan(d, p, t, 0);
        assert(z.subrange(0, a.len() as int) =~= b.subrange(0, a.len() as int));
    }
}

/// A prefix of a prefix, and a prefix of a sequence is one of any extension.
proof fn lemma_prefix_trans(a: Seq<(NodeId, usize)>, b: Seq<(NodeId, usize)>, c: Seq<(NodeId, usize)>)
    requires
        prefix_of(a, b),
        prefix_of(b, c),
    ensures
        prefix_of(a, c),
{
    assert(c.subrange(0, a.len() as int) =~= b.subrange(0, a.len() as int));
}

/// The calls of two logs one after the other.
proof fn lemma_calls_concat(a: Seq<FiredCall>, s: Seq<FiredCall>)
    ensures
        calls_of(a + s) == calls_of(a) + calls_of(s),
{
    assert(calls_of(a + s) =~= calls_of(a) + calls_of(s));
}

/// The state after two logs is the state after the second, started from the first.
proof fn lemma_state_concat(a: Seq<FiredCall>, s: Seq<FiredCall>, e0: Event, e1: Event)
    requires
        event_state(e1) == state_after(a, e0),
    ensures
        state_after(a + s, e0) == state_after(s, e1),
{
    if s.len() == 0 {
        assert(a + s =~= a);
    } else {
        assert((a + s).last() == s.last());
    }
}

/// Keeping the event and having no stop hold of every part of a log.
proof fn lemma_log_parts(a: Seq<FiredCall>, s: Seq<FiredCall>, t: Seq<char>, b: bool)
    ensures
        keeps_event(a + s, t, b) ==> keeps_event(a, t, b) && keeps_event(s, t, b),
        none_stopped(a + s) ==> none_stopped(a),
{
    assert forall|k: int| 0 <= k < a.len() implies (a + s)[k] == a[k] by {}
    assert forall|k: int| 0 <= k < s.len() implies (a + s)[a.len() + k] == s[k] by {}
    if keeps_event(a + s, t, b) {
        assert forall|k: int| 0 <= k < s.len() implies (#[trigger] s[k]).event_type == t && s[k].bubbles == b by {
            assert((a + s)[a.len() + k] == s[k]);
        }
        assert forall|k: int| 0 <= k < a.len() implies (#[trigger] a[k]).event_type == t && a[k].bubbles == b by {
            assert((a + s)[k] == a[k]);
        }
    }
    if none_stopped(a + s) {
        assert forall|k: int| 0 <= k < a.len() implies !(#[trigger] a[k]).stopped && !a[k].immediate by {
            assert((a + s)[k] == a[k]);
        }
    }
}

/// While no call changed them, the event still has the type and bubbling flag it
/// started with.
proof fn lemma_kept_state(log: Seq<FiredCall>, e0: Event, t: Seq<char>, b: bool)
    requires
        keeps_event(log, t, b),
        e0.event_type@ == t,
        e0.bubbles == b,
    ensures
        state_after(log, e0).0 == t,
        state_after(log, e0).1 == b,
{
    if log.len() > 0 {
        assert(log[log.len() - 1] == log.last());
    }
}

/// A stop flag that is set now, and was not at the start, was set by a call of the log.
proof fn lemma_stop_seen(log: Seq<FiredCall>, e0: Event, e: Event)
    requires
        event_state(e) == state_after(log, e0),
        !e0.propagation_stopped,
        !e0.immediate_propagation_stopped,
        e.propagation_stopped || e.immediate_propagation_stopped,
    ensures
        !none_stopped(log),
{
    assert(log.len() > 0);
    assert(log[log.len() - 1] == log.last());
}

/// One visit, in the log: the calls `seg` made at a node whose plan is `f`.
proof fn lemma_visit(log: Seq<FiredCall>, seg: Seq<FiredCall>, full: Seq<(NodeId, usize)>, f: Seq<(NodeId, usize)>,
    e0: Event, e1: Event, e2: Event)
    requires
        !e0.propagation_stopped,
        !e0.immediate_propagation_stopped,
        event_state(e1) == state_after(log, e0),
        event_state(e2) == state_after(seg, e1),
        prefix_of(calls_of(log), full),
        calls_of(log) != full ==> e1.immediate_propagation_stopped,
        none_stopped(log) ==> calls_of(log) == full,
        prefix_of(calls_of(seg), f),
        calls_of(seg) != f ==> e2.immediate_propagation_stopped,
        e1.immediate_propagation_stopped ==> seg.len() == 0,
    ensures
        prefix_of(calls_of(log + seg), full + f),
        calls_of(log + seg) != full + f ==> e2.immediate_propagation_stopped,
        none_stopped(log + seg) ==> calls_of(log + seg) == full + f,
{
    lemma_calls_concat(log, seg);
    lemma_state_concat(log, seg, e0, e1);
    lemma_log_parts(log, seg, Seq::empty(), false);
    lemma_log_step(calls_of(log), full, calls_of(seg), f);
    if calls_of(log) != full {
        assert(seg.len() == 0);
        assert(calls_of(seg).len() == 0);
        assert(event_state(e2) == event_state(e1));
    }
    if none_stopped(log + seg) && calls_of(seg) != f {
        if (log + seg).len() > 0 {
            let l = log + seg;
            assert(l[l.len() - 1] == l.last());
        }
    }
}

/// Each stage of the bubble plan is a prefix of the later ones.
proof fn lemma_bubble_prefix(d: Document, p: Seq<NodeId>, t: Seq<char>, j: int)
    requires
        0 <= j <= p.len(),
    ensures
        prefix_of(bubble_plan(d, p, t, j), bubble_plan(d, p, t, p.len() as int)),
    decreases p.len() - j,
{
    if j == p.len() {
        assert(bubble_plan(d, p, t, j).subrange(0, bubble_plan(d, p, t, j).len() as int) =~= bubble_plan(d, p, t, j));
    } else {
        lemma_bubble_prefix(d, p, t, j + 1);
        let a = bubble_plan(d, p, t, j);
        let b = bubble_plan(d, p, t, j + 1);
        assert(b.subrange(0, a.len() as int) =~= a);
        lemma_prefix_trans(a, b, bubble_plan(d, p, t, p.len() as int));
    }
}

/// A prefix stays one behind a common start.
proof fn lemma_prefix_after(x: Seq<(NodeId, usize)>, a: Seq<(NodeId, usize)>, b: Seq<(NodeId, usize)>)
    requires
        prefix_of(a, b),
    ensures
        prefix_of(x + a, x + b),
{
    assert((x + b).subrange(0, (x + a).len() as int) =~= x + a);
}

proof fn lemma_kept_none(s: Seq<(Seq<char>, usize, bool, bool, bool)>, t: Seq<char>, ids: Seq<usize>)
    requires
        ids.len() == 0,
    ensures
        listeners_kept(s, t, ids) == s,
    decreases s.len(),
{
    if s.len() > 0 {
        lemma_kept_none(s.drop_last(), t, ids);
        assert(s.drop_last().push(s.last()) =~= s);
    }
}

/// `a` keeps only elements of `b`, in order and without adding any.
pub open spec fn sub_list(a: Seq<(Seq<char>, usize, bool, bool, bool)>, b: Seq<(Seq<char>, usize, bool, bool, bool)>) -> bool {
    a.len() <= b.len() && forall|k: int| 0 <= k < a.len() ==> b.contains(#[trigger] a[k])
}

/// A copy of a listener entry.
fn copy_listener(e: &EventListenerEntry) -> (r: EventListenerEntry)
    ensures
        listener_view(r) == listener_view(*e),
{
    EventListenerEntry {
        event_type: e.event_type.clone(),
        callback_id: e.callback_id,
        capture: e.capture,
        once: e.once,
        passive: e.passive,
    }
}

/// Whether `v` holds `x`.
fn ids_contain(v: &Vec<usize>, x: usize) -> (r: bool)
    ensures
        r == v@.contains(x),
{
    let mut i: usize = 0;
    while i < v.len()
        invariant
            i <= v@.len(),
            forall|k: int| 0 <= k < i ==> v@[k] != x,
        decreases v@.len() - i,
    {
        if v[i] == x {
            proof { assert(v@[i as int] == x); }
            return true;
        }
        i += 1;
    }
    false
}

impl Document {
    /// `self` is `before` with only the listener lists possibly shortened.
    pub open spec fn listeners_pruned(&self, before: Document) -> bool {
        &&& self.nodes@.len() == before.nodes@.len()
        &&& forall|j: int| 0 <= j < before.nodes@.len() ==> {
            &&& (#[trigger] self.nodes@[j]).kind == before.nodes@[j].kind
            &&& self.nodes@[j].parent == before.nodes@[j].parent
            &&& self.nodes@[j].first_child == before.nodes@[j].first_child
            &&& self.nodes@[j].last_child == before.nodes@[j].last_child
            &&& self.nodes@[j].prev_sibling == before.nodes@[j].prev_sibling
            &&& self.nodes@[j].next_sibling == before.nodes@[j].next_sibling
            &&& self.nodes@[j].freed == before.nodes@[j].freed
            &&& sub_list(listeners_view(self.nodes@[j].event_listeners@), listeners_view(before.nodes@[j].event_listeners@))
        }
        &&& self.kids == before.kids
        &&& self.root == before.root
        &&& self.free_list == before.free_list
        &&& self.id_index == before.id_index
        &&& self.mutation_observers == before.mutation_observers
    }

    /// Replaces the listener list of node `id`.
    fn set_listeners(&mut self, id: NodeId, ls: Vec<EventListenerEntry>)
        requires
            old(self).wf(),
            old(self).valid(id),
        ensures
            final(self).wf(),
            final(self).nodes@ == old(self).nodes@.update(id.0 as int, NodeData { event_listeners: ls, ..old(self).nodes@[id.0 as int] }),
            final(self).kids == old(self).kids,
            final(self).root == old(self).root,
            final(self).free_list == old(self).free_list,
            final(self).id_index == old(self).id_index,
            final(self).mutation_observers == old(self).mutation_observers,
    {
        let ghost old_self = *self;
        self.nodes[id.0].event_listeners = ls;
        proof {
            assert(self.nodes@ =~= old_self.nodes@.update(id.0 as int, NodeData { event_listeners: ls, ..old_self.nodes@[id.0 as int] }));
            Document::lemma_wf_same_links(old_self, *self);
        }
    }

    /// Adds an event listener to a node.
    pub fn add_event_listener(&mut self, id: NodeId, event_type: &str, callback_id: usize, options: &ListenerOptions)
        requires
            old(self).wf(),
            old(self).valid(id),
        ensures
            final(self).wf(),
            final(self).nodes@.len() == old(self).nodes@.len(),
            forall|j: int| 0 <= j < old(self).nodes@.len() && j != id.0 ==> #[trigger] final(self).nodes@[j] == old(self).nodes@[j],
            same_links(final(self).nodes@[id.0 as int], NodeData { event_listeners: final(self).nodes@[id.0 as int].event_listeners, ..old(self).nodes@[id.0 as int] }),
            final(self).nodes@[id.0 as int].kind == old(self).nodes@[id.0 as int].kind,
            listeners_view(final(self).nodes@[id.0 as int].event_listeners@) == listeners_view(old(self).nodes@[id.0 as int].event_listeners@)
                .push((event_type@, callback_id, options.capture, options.once, options.passive)),
            final(self).kids == old(self).kids,
            final(self).id_index == old(self).id_index,
            final(self).mutation_observers == old(self).mutation_observers,
    {
        let ghost before = listeners_view(self.nodes@[id.0 as int].event_listeners@);
        let mut ls: Vec<EventListenerEntry> = Vec::new();
        let n = self.nodes[id.0].event_listeners.len();
        let mut i: usize = 0;
        while i < n
            invariant
                n == self.nodes@[id.0 as int].event_listeners@.len(),
                before == listeners_view(self.nodes@[id.0 as int].event_listeners@),
                self.valid(id),
                i <= n,
                listeners_view(ls@) == before.subrange(0, i as int),
            decreases n - i,
        {
            let e = copy_listener(&self.nodes[id.0].event_listeners[i]);
            let ghost b = ls@;
            ls.push(e);
            proof {
                assert(listener_view(e) == before[i as int]);
                assert(listeners_view(ls@) =~= listeners_view(b).push(before[i as int]));
                assert(before.subrange(0, i + 1) =~= before.subrange(0, i as int).push(before[i as int]));
            }
            i += 1;
        }
        let ghost b2 = ls@;
        proof { assert(before.subrange(0, n as int) =~= before); }
        ls.push(EventListenerEntry {
            event_type: event_type.to_owned(),
            callback_id,
            capture: options.capture,
            once: options.once,
            passive: options.passive,
        });
        proof {
            assert(listeners_view(ls@) =~= before.push((event_type@, callback_id, options.capture, options.once, options.passive)));
        }
        self.set_listeners(id, ls);
    }

    /// Removes the listeners of a node with this type, callback id and capture flag.
    pub fn remove_event_listener(&mut self, id: NodeId, event_type: &str, callback_id: usize, capture: bool)
        requires
            old(self).wf(),
            old(self).valid(id),
        ensures
            final(self).wf(),
            final(self).nodes@.len() == old(self).nodes@.len(),
            forall|j: int| 0 <= j < old(self).nodes@.len() && j != id.0 ==> #[trigger] final(self).nodes@[j] == old(self).nodes@[j],
            final(self).nodes@[id.0 as int].kind == old(self).nodes@[id.0 as int].kind,
            listeners_view(final(self).nodes@[id.0 as int].event_listeners@) == listeners_without(
                listeners_view(old(self).nodes@[id.0 as int].event_listeners@), event_type@, callback_id, capture),
            final(self).kids == old(self).kids,
            final(self).id_index == old(self).id_index,
            final(self).mutation_observers == old(self).mutation_observers,
    {
        let ghost v = listeners_view(self.nodes@[id.0 as int].event_listeners@);
        let mut ls: Vec<EventListenerEntry> = Vec::new();
        let n = self.nodes[id.0].event_listeners.len();
        let mut i: usize = 0;
        while i < n
            invariant
                n == v.len(),
                v == listeners_view(self.nodes@[id.0 as int].event_listeners@),
                self.valid(id),
                i <= n,
                listeners_view(ls@) == listeners_without(v.subrange(0, i as int), event_type@, callback_id, capture),
            decreases n - i,
        {
            proof {
                let w = v.subrange(0, i + 1);
                assert(w.drop_last() =~= v.subrange(0, i as int));
                assert(w.last() == v[i as int]);
            }
            let l = &self.nodes[id.0].event_listeners[i];
            if !(str_eq(l.event_type.as_str(), event_type) && l.callback_id == callback_id && l.capture == capture) {
                let e = copy_listener(l);
                let ghost b = ls@;
                ls.push(e);
                proof { assert(listeners_view(ls@) =~= listeners_view(b).push(v[i as int])); }
            }
            i += 1;
        }
        proof { assert(v.subrange(0, n as int) =~= v); }
        self.set_listeners(id, ls);
    }

    /// Dispatches an event: capture phase (root to the target's parent), the target,
    /// then, for bubbling events, the bubble phase (parent to root). A callback that
    /// stops propagation ends the walk; `once` listeners that fired are removed.
    /// The returned log lists the callbacks invoked, in order, with the event's state
    /// after each.
    pub fn dispatch_event<C: EventCallback>(&mut self, event: &mut Event, registry: &CallbackRegistry<C>)
        -> (log: Ghost<Seq<FiredCall>>)
        requires
            old(self).wf(),
            old(self).valid(old(event).target),
            registry.wf(),
        ensures
            final(self).wf(),
            final(self).listeners_pruned(*old(self)),
            final(event).phase == EventPhase::Idle,
            forall|j: int| 0 <= j < old(self).nodes@.len() && j != old(event).target.0
                && !old(self).ancestors_of(old(event).target).contains(NodeId(j as usize))
                ==> #[trigger] final(self).nodes@[j] == old(self).nodes@[j],
            old(event).propagation_stopped ==> *final(self) == *old(self)
                && *final(event) == (Event { phase: EventPhase::Idle, ..*old(event) })
                && log@.len() == 0,
            event_state(*final(event)) == state_after(log@, *old(event)),
            !old(event).propagation_stopped && old(self).ancestors_of(old(event).target).len() == 0 ==> {
                let before = listeners_view(old(self).nodes@[old(event).target.0 as int].event_listeners@);
                listeners_view(final(self).nodes@[old(event).target.0 as int].event_listeners@) == listeners_kept(
                    before,
                    final(event).event_type@,
                    fired_once_ids(before, old(event).event_type@, true, false),
                )
            },
            ({
                let t = old(event).event_type@;
                let b = old(event).bubbles;
                let p = old(self).ancestors_of(old(event).target);
                let plan = dispatch_plan(*old(self), old(event).target, t, b);
                (!old(event).propagation_stopped && !old(event).immediate_propagation_stopped
                    && p.no_duplicates() && !p.contains(old(event).target) && keeps_event(log@, t, b))
                ==> prefix_of(calls_of(log@), plan) && (none_stopped(log@) ==> calls_of(log@) == plan)
            }),
            ({
                let t = old(event).event_type@;
                let b = old(event).bubbles;
                let target = old(event).target;
                let p = old(self).ancestors_of(target);
                (!old(event).propagation_stopped && !old(event).immediate_propagation_stopped
                    && p.no_duplicates() && !p.contains(target) && keeps_event(log@, t, b) && none_stopped(log@))
                ==> node_listeners(*final(self), target) == after_target(*old(self), target, t)
                    && forall|k: int| 0 <= k < p.len() ==> #[trigger] node_listeners(*final(self), p[k])
                        == (if b { after_bubble(*old(self), p[k], t) } else { after_capture(*old(self), p[k], t) })
            }),
    {
        let ghost old_self = *self;
        let ghost old_event = *event;
        let ghost t = old_event.event_type@;
        let ghost b = old_event.bubbles;
        let path = self.ancestors(event.target);
        proof { self.lemma_ancestors_valid(event.target); }
        let target = event.target;
        let ghost hyp = !old_event.propagation_stopped && !old_event.immediate_propagation_stopped
            && path@.no_duplicates() && !path@.contains(target);
        let ghost mut log: Seq<FiredCall> = Seq::empty();
        event.phase = EventPhase::Capturing;
        let mut i = path.len();
        proof {
            assert(calls_of(log) =~= capture_plan(old_self, path@, t, i as int));
            assert(capture_plan(old_self, path@, t, i as int).subrange(0, 0) =~= calls_of(log));
        }
        while i > 0 && !event.propagation_stopped
            invariant
                old_self.wf(),
                self.wf(),
                self.listeners_pruned(old_self),
                self.valid(target),
                i <= path@.len(),
                forall|k: int| 0 <= k < path@.len() ==> old_self.valid(#[trigger] path@[k]),
                registry.wf(),
                path@ == old_self.ancestors_of(target),
                target == old_event.target,
                t == old_event.event_type@,
                b == old_event.bubbles,
                hyp == (!old_event.propagation_stopped && !old_event.immediate_propagation_stopped
                    && path@.no_duplicates() && !path@.contains(target)),
                forall|j: int| 0 <= j < old_self.nodes@.len() && j != target.0 && !path@.contains(NodeId(j as usize))
                    ==> #[trigger] self.nodes@[j] == old_self.nodes@[j],
                old_event.propagation_stopped ==> *self == old_self
                    && *event == (Event { phase: EventPhase::Capturing, ..old_event }) && log.len() == 0,
                i == path@.len() ==> *self == old_self && event.event_type == old_event.event_type
                    && event.propagation_stopped == old_event.propagation_stopped,
                event_state(*event) == state_after(log, old_event),
                event.phase == EventPhase::Capturing,
                hyp ==> forall|k: int| 0 <= k < i ==> #[trigger] node_listeners(*self, path@[k]) == node_listeners(old_self, path@[k]),
                hyp ==> node_listeners(*self, target) == node_listeners(old_self, target),
                hyp && keeps_event(log, t, b) ==> forall|k: int| i <= k < path@.len()
                    ==> #[trigger] node_listeners(*self, path@[k]) == after_capture(old_self, path@[k], t),
                hyp && keeps_event(log, t, b) ==> prefix_of(calls_of(log), capture_plan(old_self, path@, t, i as int)),
                hyp && keeps_event(log, t, b) && calls_of(log) != capture_plan(old_self, path@, t, i as int)
                    ==> event.immediate_propagation_stopped,
                hyp && keeps_event(log, t, b) && none_stopped(log) ==> calls_of(log) == capture_plan(old_self, path@, t, i as int),
            decreases i,
        {
            i -= 1;
            event.current_target = path[i];
            proof { assert(path@.contains(path@[i as int])); }
            let ghost before = *self;
            let ghost e1 = *event;
            let seg = self.fire_listeners(path[i], event, registry, true);
            proof {
                let n = path@[i as int];
                lemma_state_concat(log, seg@, old_event, e1);
                lemma_log_parts(log, seg@, t, b);
                lemma_calls_concat(log, seg@);
                if hyp {
                    assert forall|k: int| 0 <= k < i implies #[trigger] node_listeners(*self, path@[k]) == node_listeners(old_self, path@[k]) by {
                        assert(path@[k] != n);
                        assert(node_listeners(before, path@[k]) == node_listeners(old_self, path@[k]));
                    }
                    assert(n != target);
                }
                if hyp && keeps_event(log + seg@, t, b) {
                    lemma_kept_state(log, old_event, t, b);
                    lemma_kept_state(log + seg@, old_event, t, b);
                    assert(node_listeners(before, n) == node_listeners(old_self, n));
                    let f = at_node(n, node_fires(node_listeners(old_self, n), t, false, true));
                    assert(capture_plan(old_self, path@, t, i as int) == capture_plan(old_self, path@, t, i + 1) + f);
                    lemma_visit(log, seg@, capture_plan(old_self, path@, t, i + 1), f, old_event, e1, *event);
                    assert forall|k: int| i <= k < path@.len()
                        implies #[trigger] node_listeners(*self, path@[k]) == after_capture(old_self, path@[k], t) by {
                        if k > i {
                            assert(path@[k] != n);
                            assert(node_listeners(before, path@[k]) == after_capture(old_self, path@[k], t));
                        }
                    }
                }
                log = log + seg@;
            }
        }
        proof {
            if hyp && event.propagation_stopped {
                lemma_stop_seen(log, old_event, *event);
            }
        }
        let ghost cap = capture_plan(old_self, path@, t, 0);
        let ghost tseg = at_node(target, node_fires(node_listeners(old_self, target), t, true, false));
        proof {
            lemma_capture_prefix(old_self, path@, t, i as int);
            if hyp && keeps_event(log, t, b) {
                lemma_prefix_trans(calls_of(log), capture_plan(old_self, path@, t, i as int), cap);
            }
        }
        if !event.propagation_stopped {
            event.phase = EventPhase::AtTarget;
            event.current_target = target;
            let ghost before = *self;
            let ghost e1 = *event;
            let seg = self.fire_listeners(target, event, registry, false);
            proof {
                lemma_state_concat(log, seg@, old_event, e1);
                lemma_log_parts(log, seg@, t, b);
                lemma_calls_concat(log, seg@);
                if hyp && keeps_event(log + seg@, t, b) {
                    lemma_kept_state(log, old_event, t, b);
                    assert(i == 0);
                    lemma_visit(log, seg@, cap, tseg, old_event, e1, *event);
                    lemma_kept_state(log + seg@, old_event, t, b);
                    assert(node_listeners(*self, target) == after_target(old_self, target, t));
                    assert forall|k: int| 0 <= k < path@.len()
                        implies #[trigger] node_listeners(*self, path@[k]) == after_capture(old_self, path@[k], t) by {
                        assert(path@.contains(path@[k]));
                        assert(node_listeners(before, path@[k]) == after_capture(old_self, path@[k], t));
                    }
                }
                log = log + seg@;
            }
        } else {
            proof {
                if hyp && keeps_event(log, t, b) {
                    lemma_stop_seen(log, old_event, *event);
                    assert((cap + tseg).subrange(0, cap.len() as int) =~= cap);
                    lemma_prefix_trans(calls_of(log), cap, cap + tseg);
                }
            }
        }
        let ghost doc_at_target = *self;
        let ghost type_after_target = event.event_type@;
        let ghost ct = cap + tseg;
        if event.bubbles && !event.propagation_stopped {
            event.phase = EventPhase::Bubbling;
            let mut j: usize = 0;
            proof {
                if hyp && keeps_event(log, t, b) {
                    lemma_kept_state(log, old_event, t, b);
                    assert(ct + bubble_plan(old_self, path@, t, 0) =~= ct);
                }
            }
            while j < path.len() && !event.propagation_stopped
                invariant
                    old_self.wf(),
                    self.wf(),
                    self.listeners_pruned(old_self),
                    j <= path@.len(),
                    forall|k: int| 0 <= k < path@.len() ==> old_self.valid(#[trigger] path@[k]),
                    registry.wf(),
                    path@ == old_self.ancestors_of(target),
                    t == old_event.event_type@,
                    b == old_event.bubbles,
                    hyp == (!old_event.propagation_stopped && !old_event.immediate_propagation_stopped
                        && path@.no_duplicates() && !path@.contains(target)),
                    forall|q: int| 0 <= q < old_self.nodes@.len() && q != target.0 && !path@.contains(NodeId(q as usize))
                        ==> #[trigger] self.nodes@[q] == old_self.nodes@[q],
                    path@.len() == 0 ==> *self == doc_at_target && event.event_type@ == type_after_target,
                    event_state(*event) == state_after(log, old_event),
                    event.phase == EventPhase::Bubbling,
                    ct == cap + tseg,
                    hyp && keeps_event(log, t, b) ==> b,
                    old_self.valid(target),
                    hyp && keeps_event(log, t, b) && none_stopped(log) ==> node_listeners(*self, target) == after_target(old_self, target, t),
                    hyp && keeps_event(log, t, b) ==> forall|k: int| 0 <= k < j
                        ==> #[trigger] node_listeners(*self, path@[k]) == after_bubble(old_self, path@[k], t),
                    hyp && keeps_event(log, t, b) ==> forall|k: int| j <= k < path@.len()
                        ==> #[trigger] node_listeners(*self, path@[k]) == after_capture(old_self, path@[k], t),
                    hyp && keeps_event(log, t, b) ==> prefix_of(calls_of(log), ct + bubble_plan(old_self, path@, t, j as int)),
                    hyp && keeps_event(log, t, b) && calls_of(log) != ct + bubble_plan(old_self, path@, t, j as int)
                        ==> event.immediate_propagation_stopped,
                    hyp && keeps_event(log, t, b) && none_stopped(log) ==> calls_of(log) == ct + bubble_plan(old_self, path@, t, j as int),
                decreases path@.len() - j,
            {
                proof { assert(path@.contains(path@[j as int])); }
                event.current_target = path[j];
                let ghost before = *self;
                let ghost e1 = *event;
                let seg = self.fire_listeners(path[j], event, registry, false);
                proof {
                    let n = path@[j as int];
                    lemma_state_concat(log, seg@, old_event, e1);
                    lemma_log_parts(log, seg@, t, b);
                    lemma_calls_concat(log, seg@);
                    if hyp && keeps_event(log + seg@, t, b) {
                        lemma_kept_state(log, old_event, t, b);
                        assert(node_listeners(before, n) == after_capture(old_self, n, t));
                        let f = at_node(n, node_fires(after_capture(old_self, n, t), t, false, false));
                        assert(bubble_plan(old_self, path@, t, j + 1) == bubble_plan(old_self, path@, t, j as int) + f);
                        assert(ct + bubble_plan(old_self, path@, t, j + 1) =~= (ct + bubble_plan(old_self, path@, t, j as int)) + f);
                        lemma_visit(log, seg@, ct + bubble_plan(old_self, path@, t, j as int), f, old_event, e1, *event);
                        assert forall|k: int| j + 1 <= k < path@.len()
                            implies #[trigger] node_listeners(*self, path@[k]) == after_capture(old_self, path@[k], t) by {
                            assert(path@[k] != n);
                            assert(node_listeners(before, path@[k]) == after_capture(old_self, path@[k], t));
                        }
                        lemma_kept_state(log + seg@, old_event, t, b);
                        assert forall|k: int| 0 <= k < j + 1
                            implies #[trigger] node_listeners(*self, path@[k]) == after_bubble(old_self, path@[k], t) by {
                            if k < j {
                                assert(path@[k] != n);
                                assert(node_listeners(before, path@[k]) == after_bubble(old_self, path@[k], t));
                            }
                        }
                        assert(n != target);
                        if none_stopped(log) {
                            assert(node_listeners(before, target) == after_target(old_self, target, t));
                            assert(self.nodes@[target.0 as int] == before.nodes@[target.0 as int]);
                            assert(node_listeners(*self, target) == after_target(old_self, target, t));
                        }
                    }
                    log = log + seg@;
                }
                j += 1;
            }
            proof {
                if hyp && keeps_event(log, t, b) {
                    lemma_bubble_prefix(old_self, path@, t, j as int);
                    lemma_prefix_after(ct, bubble_plan(old_self, path@, t, j as int), bubble_plan(old_self, path@, t, path@.len() as int));
                    lemma_prefix_trans(calls_of(log), ct + bubble_plan(old_self, path@, t, j as int),
                        ct + bubble_plan(old_self, path@, t, path@.len() as int));
                    if event.propagation_stopped {
                        lemma_stop_seen(log, old_event, *event);
                    }
                }
            }
        } else {
            proof {
                if hyp && keeps_event(log, t, b) {
                    lemma_kept_state(log, old_event, t, b);
                    if b {
                        lemma_stop_seen(log, old_event, *event);
                        assert(bubble_plan(old_self, path@, t, path@.len() as int).subrange(0, 0) =~= Seq::<(NodeId, usize)>::empty());
                        lemma_prefix_after(ct, Seq::empty(), bubble_plan(old_self, path@, t, path@.len() as int));
                        assert(ct + Seq::<(NodeId, usize)>::empty() =~= ct);
                        lemma_prefix_trans(calls_of(log), ct, ct + bubble_plan(old_self, path@, t, path@.len() as int));
                    } else {
                        assert(ct + Seq::<(NodeId, usize)>::empty() =~= ct);
                    }
                }
            }
        }
        proof {
            assert(dispatch_plan(old_self, target, t, b)
                == ct + (if b { bubble_plan(old_self, path@, t, path@.len() as int) } else { Seq::empty() }));
        }
        event.phase = EventPhase::Idle;
        Ghost(log)
    }

    /// Fires the listeners of `node` that match the event type and phase, then
    /// removes the `once` listeners among them.
    fn fire_listeners<C: EventCallback>(&mut self, node: NodeId, event: &mut Event, registry: &CallbackRegistry<C>, capture_phase: bool)
        -> (seg: Ghost<Seq<FiredCall>>)
        requires
            old(self).wf(),
            old(self).valid(node),
            registry.wf(),
        ensures
            final(self).wf(),
            final(self).listeners_pruned(*old(self)),
            final(event).phase == old(event).phase,
            forall|j: int| 0 <= j < old(self).nodes@.len() && j != node.0 ==> #[trigger] final(self).nodes@[j] == old(self).nodes@[j],
            listeners_view(final(self).nodes@[node.0 as int].event_listeners@) == listeners_kept(
                listeners_view(old(self).nodes@[node.0 as int].event_listeners@),
                final(event).event_type@,
                fired_once_ids(listeners_view(old(self).nodes@[node.0 as int].event_listeners@), old(event).event_type@,
                    old(event).phase == EventPhase::AtTarget, capture_phase),
            ),
            forall|k: int| 0 <= k < seg@.len() ==> (#[trigger] seg@[k]).node == node,
            prefix_of(calls_of(seg@), at_node(node, node_fires(listeners_view(old(self).nodes@[node.0 as int].event_listeners@),
                old(event).event_type@, old(event).phase == EventPhase::AtTarget, capture_phase))),
            event_state(*final(event)) == state_after(seg@, *old(event)),
            calls_of(seg@) != at_node(node, node_fires(listeners_view(old(self).nodes@[node.0 as int].event_listeners@),
                old(event).event_type@, old(event).phase == EventPhase::AtTarget, capture_phase)) ==> final(event).immediate_propagation_stopped,
            old(event).immediate_propagation_stopped ==> seg@.len() == 0,
    {
        let ghost old_self = *self;
        let ghost v0 = listeners_view(self.nodes@[node.0 as int].event_listeners@);
        let mut to_fire: Vec<usize> = Vec::new();
        let mut to_remove: Vec<usize> = Vec::new();
        let n = self.nodes[node.0].event_listeners.len();
        let at_target = event.phase == EventPhase::AtTarget;
        let mut i: usize = 0;
        while i < n
            invariant
                n == self.nodes@[node.0 as int].event_listeners@.len(),
                self.valid(node),
                i <= n,
                v0 == listeners_view(self.nodes@[node.0 as int].event_listeners@),
                at_target == (event.phase == EventPhase::AtTarget),
                to_remove@ == fired_once_ids(v0.subrange(0, i as int), event.event_type@, at_target, capture_phase),
                to_fire@ == node_fires(v0.subrange(0, i as int), event.event_type@, at_target, capture_phase),
            decreases n - i,
        {
            proof {
                let w = v0.subrange(0, i + 1);
                assert(w.drop_last() =~= v0.subrange(0, i as int));
                assert(w.last() == v0[i as int]);
            }
            let l = &self.nodes[node.0].event_listeners[i];
            if str_eq(l.event_type.as_str(), event.event_type.as_str()) && (at_target || l.capture == capture_phase) {
                to_fire.push(l.callback_id);
                if l.once {
                    to_remove.push(l.callback_id);
                }
            }
            i += 1;
        }
        proof { assert(v0.subrange(0, n as int) =~= v0); }
        let ghost ids = to_remove@;
        let ghost t0 = event.event_type@;
        let ghost e0 = *event;
        let ghost fires = at_node(node, to_fire@);
        let ghost mut seg: Seq<FiredCall> = Seq::empty();
        let mut k: usize = 0;
        while k < to_fire.len() && !event.immediate_propagation_stopped
            invariant
                k <= to_fire@.len(),
                registry.wf(),
                event.phase == old(event).phase,
                seg.len() == k,
                forall|q: int| 0 <= q < seg.len() ==> (#[trigger] seg[q]).node == node && seg[q].callback_id == to_fire@[q],
                event_state(*event) == state_after(seg, e0),
                e0.immediate_propagation_stopped ==> k == 0,
            decreases to_fire@.len() - k,
        {
            let phase = event.phase;
            registry.invoke(to_fire[k], event);
            event.phase = phase;
            proof {
                seg = seg.push(FiredCall {
                    node,
                    callback_id: to_fire@[k as int],
                    event_type: event.event_type@,
                    bubbles: event.bubbles,
                    stopped: event.propagation_stopped,
                    immediate: event.immediate_propagation_stopped,
                });
            }
            k += 1;
        }
        proof {
            assert(fires.subrange(0, k as int) =~= calls_of(seg));
            if k == to_fire@.len() {
                assert(fires.subrange(0, k as int) =~= fires);
            }
        }
        if to_remove.len() > 0 {
            let ghost v = listeners_view(self.nodes@[node.0 as int].event_listeners@);
            let mut ls: Vec<EventListenerEntry> = Vec::new();
            let mut i: usize = 0;
            while i < n
                invariant
                    n == v.len(),
                    v == listeners_view(self.nodes@[node.0 as int].event_listeners@),
                    self.valid(node),
                    i <= n,
                    sub_list(listeners_view(ls@), v.subrange(0, i as int)),
                    to_remove@ == ids,
                    listeners_view(ls@) == listeners_kept(v.subrange(0, i as int), event.event_type@, ids),
                decreases n - i,
            {
                proof {
                    let w = v.subrange(0, i + 1);
                    assert(w.drop_last() =~= v.subrange(0, i as int));
                    assert(w.last() == v[i as int]);
                }
                let l = &self.nodes[node.0].event_listeners[i];
                if !(str_eq(l.event_type.as_str(), event.event_type.as_str()) && ids_contain(&to_remove, l.callback_id)) {
                    let e = copy_listener(l);
                    let ghost b = ls@;
                    ls.push(e);
                    proof {
                        assert(listeners_view(ls@) =~= listeners_view(b).push(v[i as int]));
                        assert forall|q: int| 0 <= q < listeners_view(ls@).len() implies v.subrange(0, i + 1).contains(#[trigger] listeners_view(ls@)[q]) by {
                            if q < listeners_view(b).len() {
                                let x = listeners_view(b)[q];
                                assert(v.subrange(0, i as int).contains(x));
                                let t = choose|t: int| 0 <= t < i && v.subrange(0, i as int)[t] == x;
                                assert(v.subrange(0, i + 1)[t] == x);
                            } else {
                                assert(v.subrange(0, i + 1)[i as int] == v[i as int]);
                            }
                        }
                    }
                } else {
                    proof {
                        let b = listeners_view(ls@);
                        assert forall|q: int| 0 <= q < b.len() implies v.subrange(0, i + 1).contains(#[trigger] b[q]) by {
                            let x = b[q];
                            let t = choose|t: int| 0 <= t < i && v.subrange(0, i as int)[t] == x;
                            assert(v.subrange(0, i + 1)[t] == x);
                        }
                    }
                }
                i += 1;
            }
            proof { assert(v.subrange(0, n as int) =~= v); }
            self.set_listeners(node, ls);
            proof {
                assert forall|j: int| 0 <= j < old_self.nodes@.len() implies
                    sub_list(listeners_view((#[trigger] self.nodes@[j]).event_listeners@), listeners_view(old_self.nodes@[j].event_listeners@)) by {
                    if j != node.0 {
                        assert(self.nodes@[j] == old_self.nodes@[j]);
                        let a = listeners_view(self.nodes@[j].event_listeners@);
                        assert forall|q: int| 0 <= q < a.len() implies a.contains(#[trigger] a[q]) by {}
                    }
                }
            }
        } else {
            proof {
                lemma_kept_none(v0, event.event_type@, to_remove@);
                assert forall|j: int| 0 <= j < old_self.nodes@.len() implies
                    sub_list(listeners_view((#[trigger] self.nodes@[j]).event_listeners@), listeners_view(old_self.nodes@[j].event_listeners@)) by {
                    let a = listeners_view(self.nodes@[j].event_listeners@);
                    assert forall|q: int| 0 <= q < a.len() implies a.contains(#[trigger] a[q]) by {}
                }
            }
        }
        Ghost(seg)
    }

    /// Every ancestor of a valid node is valid.
    pub proof fn lemma_ancestors_valid(&self, id: NodeId)
        requires
            self.wf(),
            self.valid(id),
        ensures
            forall|k: int| 0 <= k < self.ancestors_of(id).len() ==> self.valid(#[trigger] self.ancestors_of(id)[k]),
    {
        self.lemma_chain_valid(id, self.nodes@.len() as nat);
    }

    proof fn lemma_chain_valid(&self, id: NodeId, fuel: nat)
        requires
            self.wf(),
            self.valid(id),
        ensures
            forall|k: int| 0 <= k < super::traversal::ancestor_chain(self.nodes@, id, fuel).len()
                ==> self.valid(#[trigger] super::traversal::ancestor_chain(self.nodes@, id, fuel)[k]),
        decreases fuel,
    {
        if fuel > 0 {
            assert(self.node_links_ok(id.0 as int));
            if let Some(p) = self.nodes@[id.0 as int].parent {
                self.lemma_chain_valid(p, (fuel - 1) as nat);
                let c = super::traversal::ancestor_chain(self.nodes@, id, fuel);
                let r = super::traversal::ancestor_chain(self.nodes@, p, (fuel - 1) as nat);
                assert(c == seq![p] + r);
                assert forall|k: int| 0 <= k < c.len() implies self.valid(#[trigger] c[k]) by {
                    if k > 0 {
                        assert(c[k] == r[k - 1]);
                    }
                }
            }
        }
    }
}

} // verus!
