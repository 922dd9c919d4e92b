//! Tree manipulation: append, insert, remove, replace, clone.

use vstd::prelude::*;
use super::{Document, opt_last, opt_at, same_payload};
use super::node::{NodeId, NodeData, NodeKind};

verus! {

/// Equality of optional node handles.
pub fn opt_id_eq(a: Option<NodeId>, b: Option<NodeId>) -> (r: bool)
    ensures
        r == (a == b),
{
    match (a, b) {
        (Some(x), Some(y)) => x.0 == y.0,
        (None, None) => true,
        _ => false,
    }
}

/// The children model after detaching `c` from its parent (if any).
pub open spec fn kids_without(kids: Seq<Seq<NodeId>>, parent: Option<NodeId>, c: NodeId) -> Seq<Seq<NodeId>> {
    match parent {
        Some(p) => kids.update(p.0 as int, kids[p.0 as int].remove(kids[p.0 as int].index_of(c))),
        None => kids,
    }
}

/// The children model after moving `c` to the end of `p`'s children.
pub open spec fn kids_appended(kids: Seq<Seq<NodeId>>, old_parent: Option<NodeId>, p: NodeId, c: NodeId) -> Seq<Seq<NodeId>> {
    let k1 = kids_without(kids, old_parent, c);
    k1.update(p.0 as int, k1[p.0 as int].push(c))
}

/// The id that an element node carries, if any.
pub open spec fn node_id_attr(n: NodeData) -> Option<Seq<char>> {
    match n.kind {
        NodeKind::Element(el) => match el.id {
            Some(s) => Some(s@),
            None => None,
        },
        _ => None,
    }
}

/// The id index after a node carrying `n`'s payload has been attached as `c`.
pub open spec fn index_after_attach(m: Map<Seq<char>, NodeId>, n: NodeData, c: NodeId) -> Map<Seq<char>, NodeId> {
    match node_id_attr(n) {
        Some(s) => m.insert(s, c),
        None => m,
    }
}

impl Document {
    proof fn lemma_push_child_wf(old_self: Document, new_self: Document, parent: NodeId, child: NodeId)
        requires
            old_self.wf(),
            old_self.live(parent),
            old_self.live(child),
            old_self.nodes@[child.0 as int].parent is None,
            new_self.nodes@.len() == old_self.nodes@.len(),
            new_self.root == old_self.root,
            new_self.free_list == old_self.free_list,
            new_self.id_index.wf(),
            new_self.kids@ == old_self.kids@.update(parent.0 as int, old_self.kids@[parent.0 as int].push(child)),
            forall|j: int| 0 <= j < new_self.nodes@.len() ==> same_payload(#[trigger] new_self.nodes@[j], old_self.nodes@[j]),
            ({
                let c = child.0 as int;
                let pp = parent.0 as int;
                let l = old_self.kids@[pp];
                forall|j: int| 0 <= j < new_self.nodes@.len() ==> {
                    let o = old_self.nodes@[j];
                    let n = #[trigger] new_self.nodes@[j];
                    &&& n.parent == (if j == c { Some(parent) } else { o.parent })
                    &&& n.prev_sibling == (if j == c { opt_last(l) } else { o.prev_sibling })
                    &&& n.next_sibling == (if opt_last(l) == Some(NodeId(j as usize)) { Some(child) } else { o.next_sibling })
                    &&& n.first_child == (if j == pp && l.len() == 0 { Some(child) } else { o.first_child })
                    &&& n.last_child == (if j == pp { Some(child) } else { o.last_child })
                }
            }),
        ensures
            new_self.wf(),
    {
        let c = child.0 as int;
        let pp = parent.0 as int;
        let len = old_self.nodes@.len();
        let l = old_self.kids@[pp];
        let nl = l.push(child);
        assert(old_self.node_links_ok(c));
        assert(old_self.node_links_ok(pp));
        assert(!l.contains(child)) by {
            if l.contains(child) {
                let m = choose|m: int| 0 <= m < l.len() && l[m] == child;
                assert(old_self.child_links_ok(pp, m));
            }
        }
        if l.len() > 0 {
            assert(old_self.child_links_ok(pp, l.len() - 1));
        }
        assert forall|j: int| 0 <= j < len implies #[trigger] new_self.node_links_ok(j) by {
            assert(old_self.node_links_ok(j));
            if j == pp {
                assert(nl.last() == child);
                if l.len() > 0 { assert(nl[0] == l[0]); }
                assert forall|a: int, b: int| 0 <= a < nl.len() && 0 <= b < nl.len() && a != b implies nl[a] != nl[b] by {
                    if a < l.len() { assert(nl[a] == l[a]); }
                    if b < l.len() { assert(nl[b] == l[b]); }
                }
            }
            if j == c {
                assert(nl[nl.len() - 1] == child);
            } else if let Some(q) = old_self.nodes@[j].parent {
                let ol = old_self.kids@[q.0 as int];
                let m = choose|m: int| 0 <= m < ol.len() && ol[m] == NodeId(j as usize);
                if q.0 as int == pp {
                    assert(nl[m] == NodeId(j as usize));
                } else {
                    assert(new_self.kids@[q.0 as int] == ol);
                }
            } else {
                if opt_last(l) == Some(NodeId(j as usize)) {
                    assert(old_self.child_links_ok(pp, l.len() - 1));
                }
            }
        }
        assert forall|i: int, m: int| 0 <= i < len && 0 <= m < new_self.kids@[i].len()
            implies #[trigger] new_self.child_links_ok(i, m) by {
            if i == pp {
                if m < l.len() {
                    assert(nl[m] == l[m]);
                    assert(old_self.child_links_ok(pp, m));
                    if m > 0 { assert(nl[m - 1] == l[m - 1]); }
                    if m + 1 < l.len() { assert(nl[m + 1] == l[m + 1]); }
                    assert(l[m] != child);
                } else {
                    assert(nl[m] == child);
                    if m > 0 { assert(nl[m - 1] == l[m - 1]); }
                }
            } else {
                assert(new_self.kids@[i] == old_self.kids@[i]);
                assert(old_self.child_links_ok(i, m));
                let d = old_self.kids@[i][m];
                assert(d != child);
                if opt_last(l) == Some(d) {
                    assert(old_self.child_links_ok(pp, l.len() - 1));
                }
            }
        }
        assert forall|q: int| 0 <= q < new_self.free_list@.len() implies {
            let f = #[trigger] new_self.free_list@[q];
            &&& f < new_self.nodes@.len()
            &&& new_self.nodes@[f as int].freed
            &&& new_self.nodes@[f as int].parent is None
            &&& new_self.kids@[f as int].len() == 0
        } by {
            let f = new_self.free_list@[q];
            assert(old_self.nodes@[f as int].freed);
        }
    }

    proof fn lemma_insert_child_wf(old_self: Document, new_self: Document, parent: NodeId, child: NodeId, idx: int)
        requires
            old_self.wf(),
            old_self.live(parent),
            old_self.live(child),
            old_self.nodes@[child.0 as int].parent is None,
            0 <= idx < old_self.kids@[parent.0 as int].len(),
            new_self.nodes@.len() == old_self.nodes@.len(),
            new_self.root == old_self.root,
            new_self.free_list == old_self.free_list,
            new_self.id_index.wf(),
            new_self.kids@ == old_self.kids@.update(parent.0 as int, old_self.kids@[parent.0 as int].insert(idx, child)),
            forall|j: int| 0 <= j < new_self.nodes@.len() ==> same_payload(#[trigger] new_self.nodes@[j], old_self.nodes@[j]),
            ({
                let c = child.0 as int;
                let pp = parent.0 as int;
                let l = old_self.kids@[pp];
                let r = l[idx];
                forall|j: int| 0 <= j < new_self.nodes@.len() ==> {
                    let o = old_self.nodes@[j];
                    let n = #[trigger] new_self.nodes@[j];
                    &&& n.parent == (if j == c { Some(parent) } else { o.parent })
                    &&& n.prev_sibling == (if j == c { opt_at(l, idx - 1) } else if j == r.0 as int { Some(child) } else { o.prev_sibling })
                    &&& n.next_sibling == (if j == c { Some(r) } else if opt_at(l, idx - 1) == Some(NodeId(j as usize)) { Some(child) } else { o.next_sibling })
                    &&& n.first_child == (if j == pp && idx == 0 { Some(child) } else { o.first_child })
                    &&& n.last_child == o.last_child
                }
            }),
        ensures
            new_self.wf(),
    {
        let c = child.0 as int;
        let pp = parent.0 as int;
        let len = old_self.nodes@.len();
        let l = old_self.kids@[pp];
        let nl = l.insert(idx, child);
        let r = l[idx];
        assert(old_self.node_links_ok(c));
        assert(old_self.node_links_ok(pp));
        assert(!l.contains(child)) by {
            if l.contains(child) {
                let m = choose|m: int| 0 <= m < l.len() && l[m] == child;
                assert(old_self.child_links_ok(pp, m));
            }
        }
        assert(old_self.child_links_ok(pp, idx));
        if idx > 0 {
            assert(old_self.child_links_ok(pp, idx - 1));
        }
        assert(old_self.child_links_ok(pp, l.len() - 1));
        assert forall|m: int| 0 <= m < nl.len() implies #[trigger] nl[m] == (if m < idx { l[m] } else if m == idx { child } else { l[m - 1] }) by {}
        assert forall|j: int| 0 <= j < len implies #[trigger] new_self.node_links_ok(j) by {
            assert(old_self.node_links_ok(j));
            if j == pp {
                assert(nl.last() == l.last());
                assert forall|a: int, b: int| 0 <= a < nl.len() && 0 <= b < nl.len() && a != b implies nl[a] != nl[b] by {
                    if a < idx { assert(nl[a] == l[a]); } else if a > idx { assert(nl[a] == l[a - 1]); }
                    if b < idx { assert(nl[b] == l[b]); } else if b > idx { assert(nl[b] == l[b - 1]); }
                }
            }
            if j == c {
                assert(nl[idx] == child);
            } else if let Some(q) = old_self.nodes@[j].parent {
                let ol = old_self.kids@[q.0 as int];
                let m = choose|m: int| 0 <= m < ol.len() && ol[m] == NodeId(j as usize);
                if q.0 as int == pp {
                    let nm = if m < idx { m } else { m + 1 };
                    assert(nl[nm] == NodeId(j as usize));
                } else {
                    assert(new_self.kids@[q.0 as int] == ol);
                }
            } else {
                if opt_at(l, idx - 1) == Some(NodeId(j as usize)) {
                    assert(old_self.child_links_ok(pp, idx - 1));
                }
                assert(j != r.0 as int);
            }
        }
        assert forall|i: int, m: int| 0 <= i < len && 0 <= m < new_self.kids@[i].len()
            implies #[trigger] new_self.child_links_ok(i, m) by {
            if i == pp {
                if m < idx {
                    assert(old_self.child_links_ok(pp, m));
                    assert(l[m] != child);
                    if m + 1 < idx { assert(old_self.child_links_ok(pp, m + 1)); }
                    if m < idx - 1 { assert(l[m] != l[idx - 1]); }
                    assert(l[m] != r);
                } else if m > idx {
                    assert(old_self.child_links_ok(pp, m - 1));
                    assert(l[m - 1] != child);
                    if m - 1 > idx { assert(l[m - 1] != r); }
                    if idx > 0 { assert(l[m - 1] != l[idx - 1]); }
                }
            } else {
                assert(new_self.kids@[i] == old_self.kids@[i]);
                assert(old_self.child_links_ok(i, m));
                let d = old_self.kids@[i][m];
                assert(d != child);
                assert(d != r);
                if opt_at(l, idx - 1) == Some(d) {
                    assert(old_self.child_links_ok(pp, idx - 1));
                }
            }
        }
        assert forall|q: int| 0 <= q < new_self.free_list@.len() implies {
            let f = #[trigger] new_self.free_list@[q];
            &&& f < new_self.nodes@.len()
            &&& new_self.nodes@[f as int].freed
            &&& new_self.nodes@[f as int].parent is None
            &&& new_self.kids@[f as int].len() == 0
        } by {
            let f = new_self.free_list@[q];
            assert(old_self.nodes@[f as int].freed);
        }
    }

    /// Inserts `new_child` before `reference` under `parent`.
    /// If `reference` is `None`, acts like `append_child`. Observers of `parent`
    /// get a child-list record.
    pub fn insert_before(&mut self, parent: NodeId, new_child: NodeId, reference: Option<NodeId>)
        requires
            old(self).wf(),
            old(self).live(parent),
            old(self).live(new_child),
            reference matches Some(r) ==> r != new_child && old(self).valid(r)
                && old(self).nodes@[r.0 as int].parent == Some(parent),
        ensures
            final(self).wf(),
            final(self).kids@ == (match reference {
                None => kids_appended(old(self).kids@, old(self).nodes@[new_child.0 as int].parent, parent, new_child),
                Some(r) => {
                    let k1 = kids_without(old(self).kids@, old(self).nodes@[new_child.0 as int].parent, new_child);
                    k1.update(parent.0 as int, k1[parent.0 as int].insert(k1[parent.0 as int].index_of(r), new_child))
                },
            }),
            final(self).nodes@.len() == old(self).nodes@.len(),
            forall|j: int| 0 <= j < old(self).nodes@.len() ==> same_payload(#[trigger] final(self).nodes@[j], old(self).nodes@[j]),
            final(self).nodes@[new_child.0 as int].parent == Some(parent),
            final(self).root == old(self).root,
            final(self).free_list == old(self).free_list,
            final(self).id_index@ == index_after_attach(old(self).id_index@, old(self).nodes@[new_child.0 as int], new_child),
            final(self).child_list_recorded(old(self).mutation_observers@, parent),
    {
        self.attach_before(parent, new_child, reference);
        self.record_child_list(parent);
    }

    /// Inserts `new_child` before `reference` under `parent`, recording nothing.
    pub(crate) fn attach_before(&mut self, parent: NodeId, new_child: NodeId, reference: Option<NodeId>)
        requires
            old(self).wf(),
            old(self).live(parent),
            old(self).live(new_child),
            reference matches Some(r) ==> r != new_child && old(self).valid(r)
                && old(self).nodes@[r.0 as int].parent == Some(parent),
        ensures
            final(self).wf(),
            final(self).kids@ == (match reference {
                None => kids_appended(old(self).kids@, old(self).nodes@[new_child.0 as int].parent, parent, new_child),
                Some(r) => {
                    let k1 = kids_without(old(self).kids@, old(self).nodes@[new_child.0 as int].parent, new_child);
                    k1.update(parent.0 as int, k1[parent.0 as int].insert(k1[parent.0 as int].index_of(r), new_child))
                },
            }),
            final(self).nodes@.len() == old(self).nodes@.len(),
            forall|j: int| 0 <= j < old(self).nodes@.len() ==> same_payload(#[trigger] final(self).nodes@[j], old(self).nodes@[j]),
            final(self).nodes@[new_child.0 as int].parent == Some(parent),
            final(self).root == old(self).root,
            final(self).free_list == old(self).free_list,
            final(self).id_index@ == index_after_attach(old(self).id_index@, old(self).nodes@[new_child.0 as int], new_child),
            final(self).mutation_observers == old(self).mutation_observers,
    {
        let reference = match reference {
            Some(r) => r,
            None => {
                self.attach_child(parent, new_child);
                return;
            },
        };
        if self.nodes[new_child.0].parent.is_some() {
            self.unlink(new_child);
        }
        let ghost mid = *self;
        let ghost idx = mid.kids@[parent.0 as int].index_of(reference);
        proof {
            assert(mid.node_links_ok(reference.0 as int));
            assert(mid.node_links_ok(new_child.0 as int));
            assert(mid.node_links_ok(parent.0 as int));
            assert(0 <= idx < mid.kids@[parent.0 as int].len());
            assert(mid.child_links_ok(parent.0 as int, idx));
            if idx > 0 {
                assert(mid.child_links_ok(parent.0 as int, idx - 1));
            }
        }

        self.nodes[new_child.0].parent = Some(parent);

        let prev = self.nodes[reference.0].prev_sibling;
        self.nodes[new_child.0].next_sibling = Some(reference);
        self.nodes[new_child.0].prev_sibling = prev;
        self.nodes[reference.0].prev_sibling = Some(new_child);

        if let Some(p) = prev {
            self.nodes[p.0].next_sibling = Some(new_child);
        } else {
            self.nodes[parent.0].first_child = Some(new_child);
        }

        if let NodeKind::Element(el) = &self.nodes[new_child.0].kind {
            if let Some(id) = &el.id {
                let key = id.clone();
                self.id_index.insert(key, new_child);
            }
        }
        proof {
            self.kids = Ghost(mid.kids@.update(parent.0 as int, mid.kids@[parent.0 as int].insert(idx, new_child)));
            Self::lemma_insert_child_wf(mid, *self, parent, new_child, idx);
        }
    }

    /// Removes `child` from `parent`. The node remains in the arena but is unlinked.
    /// Observers of `parent` get a child-list record when `child` was its child.
    pub fn remove_child(&mut self, parent: NodeId, child: NodeId)
        requires
            old(self).wf(),
            old(self).valid(child),
        ensures
            final(self).wf(),
            final(self).kids@ == (if old(self).nodes@[child.0 as int].parent == Some(parent) {
                kids_without(old(self).kids@, Some(parent), child)
            } else {
                old(self).kids@
            }),
            final(self).nodes@.len() == old(self).nodes@.len(),
            forall|j: int| 0 <= j < old(self).nodes@.len() ==> same_payload(#[trigger] final(self).nodes@[j], old(self).nodes@[j]),
            old(self).nodes@[child.0 as int].parent == Some(parent) ==> final(self).nodes@[child.0 as int].parent is None,
            old(self).nodes@[child.0 as int].parent != Some(parent) ==> final(self).nodes == old(self).nodes,
            final(self).root == old(self).root,
            final(self).free_list == old(self).free_list,
            final(self).id_index@ == (match node_id_attr(old(self).nodes@[child.0 as int]) {
                Some(s) if old(self).nodes@[child.0 as int].parent == Some(parent) => old(self).id_index@.remove(s),
                _ => old(self).id_index@,
            }),
            if old(self).nodes@[child.0 as int].parent == Some(parent) {
                final(self).child_list_recorded(old(self).mutation_observers@, parent)
            } else {
                final(self).mutation_observers == old(self).mutation_observers
            },
    {
        let was_child = opt_id_eq(self.nodes[child.0].parent, Some(parent));
        proof { assert(self.node_links_ok(child.0 as int)); }
        self.detach_child(parent, child);
        if was_child {
            self.record_child_list(parent);
        }
    }

    /// Removes `child` from `parent`, recording nothing.
    pub(crate) fn detach_child(&mut self, parent: NodeId, child: NodeId)
        requires
            old(self).wf(),
            old(self).valid(child),
        ensures
            final(self).wf(),
            final(self).kids@ == (if old(self).nodes@[child.0 as int].parent == Some(parent) {
                kids_without(old(self).kids@, Some(parent), child)
            } else {
                old(self).kids@
            }),
            final(self).nodes@.len() == old(self).nodes@.len(),
            forall|j: int| 0 <= j < old(self).nodes@.len() ==> same_payload(#[trigger] final(self).nodes@[j], old(self).nodes@[j]),
            old(self).nodes@[child.0 as int].parent == Some(parent) ==> final(self).nodes@[child.0 as int].parent is None,
            old(self).nodes@[child.0 as int].parent != Some(parent) ==> final(self).nodes == old(self).nodes,
            super::subtree::parents_kept(final(self).nodes@, old(self).nodes@),
            forall|j: int| 0 <= j < old(self).nodes@.len() && j != child.0 ==> (#[trigger] final(self).nodes@[j]).parent == old(self).nodes@[j].parent,
            final(self).root == old(self).root,
            final(self).free_list == old(self).free_list,
            final(self).id_index@ == (match node_id_attr(old(self).nodes@[child.0 as int]) {
                Some(s) if old(self).nodes@[child.0 as int].parent == Some(parent) => old(self).id_index@.remove(s),
                _ => old(self).id_index@,
            }),
            final(self).mutation_observers == old(self).mutation_observers,
    {
        if !opt_id_eq(self.nodes[child.0].parent, Some(parent)) {
            return;
        }
        let ghost before = *self;
        if let NodeKind::Element(el) = &self.nodes[child.0].kind {
            if let Some(id) = &el.id {
                self.id_index.remove(id.as_str());
            }
        }
        proof {
            assert(self.nodes == before.nodes);
            assert(self.kids == before.kids);
            assert(self.free_list == before.free_list);
            assert(self.root == before.root);
            Document::lemma_wf_same_links(before, *self);
        }
        self.unlink(child);
    }

    proof fn lemma_replace_child_wf(old_self: Document, new_self: Document, parent: NodeId, child: NodeId, idx: int)
        requires
            old_self.wf(),
            old_self.live(parent),
            old_self.live(child),
            old_self.nodes@[child.0 as int].parent is None,
            0 <= idx < old_self.kids@[parent.0 as int].len(),
            new_self.nodes@.len() == old_self.nodes@.len(),
            new_self.root == old_self.root,
            new_self.free_list == old_self.free_list,
            new_self.id_index.wf(),
            new_self.kids@ == old_self.kids@.update(parent.0 as int, old_self.kids@[parent.0 as int].update(idx, child)),
            forall|j: int| 0 <= j < new_self.nodes@.len() ==> same_payload(#[trigger] new_self.nodes@[j], old_self.nodes@[j]),
            ({
                let c = child.0 as int;
                let pp = parent.0 as int;
                let l = old_self.kids@[pp];
                let r = l[idx].0 as int;
                forall|j: int| 0 <= j < new_self.nodes@.len() ==> {
                    let o = old_self.nodes@[j];
                    let n = #[trigger] new_self.nodes@[j];
                    &&& n.parent == (if j == c { Some(parent) } else if j == r { None } else { o.parent })
                    &&& n.prev_sibling == (if j == c { opt_at(l, idx - 1) } else if j == r { None }
                        else if opt_at(l, idx + 1) == Some(NodeId(j as usize)) { Some(child) } else { o.prev_sibling })
                    &&& n.next_sibling == (if j == c { opt_at(l, idx + 1) } else if j == r { None }
                        else if opt_at(l, idx - 1) == Some(NodeId(j as usize)) { Some(child) } else { o.next_sibling })
                    &&& n.first_child == (if j == pp && idx == 0 { Some(child) } else { o.first_child })
                    &&& n.last_child == (if j == pp && idx == l.len() - 1 { Some(child) } else { o.last_child })
                }
            }),
        ensures
            new_self.wf(),
    {
        let c = child.0 as int;
        let pp = parent.0 as int;
        let len = old_self.nodes@.len();
        let l = old_self.kids@[pp];
        let nl = l.update(idx, child);
        let r = l[idx];
        assert(old_self.node_links_ok(c));
        assert(old_self.node_links_ok(pp));
        assert(!l.contains(child)) by {
            if l.contains(child) {
                let m = choose|m: int| 0 <= m < l.len() && l[m] == child;
                assert(old_self.child_links_ok(pp, m));
            }
        }
        assert(old_self.child_links_ok(pp, idx));
        if idx > 0 {
            assert(old_self.child_links_ok(pp, idx - 1));
        }
        if idx + 1 < l.len() {
            assert(old_self.child_links_ok(pp, idx + 1));
        }
        assert(old_self.child_links_ok(pp, l.len() - 1));
        assert(old_self.child_links_ok(pp, 0));
        assert forall|j: int| 0 <= j < len implies #[trigger] new_self.node_links_ok(j) by {
            assert(old_self.node_links_ok(j));
            if j == pp {
                assert forall|a: int, b: int| 0 <= a < nl.len() && 0 <= b < nl.len() && a != b implies nl[a] != nl[b] by {
                    if a != idx { assert(nl[a] == l[a]); }
                    if b != idx { assert(nl[b] == l[b]); }
                }
            }
            if j == c {
                assert(nl[idx] == child);
            } else if j == r.0 as int {
            } else if let Some(q) = old_self.nodes@[j].parent {
                let ol = old_self.kids@[q.0 as int];
                let m = choose|m: int| 0 <= m < ol.len() && ol[m] == NodeId(j as usize);
                if q.0 as int == pp {
                    assert(m != idx);
                    assert(nl[m] == NodeId(j as usize));
                } else {
                    assert(new_self.kids@[q.0 as int] == ol);
                }
            } else {
                if opt_at(l, idx - 1) == Some(NodeId(j as usize)) {
                    assert(old_self.child_links_ok(pp, idx - 1));
                }
                if opt_at(l, idx + 1) == Some(NodeId(j as usize)) {
                    assert(old_self.child_links_ok(pp, idx + 1));
                }
            }
        }
        assert forall|i: int, m: int| 0 <= i < len && 0 <= m < new_self.kids@[i].len()
            implies #[trigger] new_self.child_links_ok(i, m) by {
            if i == pp {
                if m != idx {
                    assert(nl[m] == l[m]);
                    assert(old_self.child_links_ok(pp, m));
                    assert(l[m] != child);
                    assert(l[m] != r);
                    if m > 0 && m - 1 != idx { assert(nl[m - 1] == l[m - 1]); }
                    if m + 1 < l.len() && m + 1 != idx { assert(nl[m + 1] == l[m + 1]); }
                    if idx > 0 { assert(l[m] != l[idx - 1] || m == idx - 1); }
                    if idx + 1 < l.len() { assert(l[m] != l[idx + 1] || m == idx + 1); }
                } else {
                    if m > 0 { assert(nl[m - 1] == l[m - 1]); }
                    if m + 1 < l.len() { assert(nl[m + 1] == l[m + 1]); }
                }
            } else {
                assert(new_self.kids@[i] == old_self.kids@[i]);
                assert(old_self.child_links_ok(i, m));
                let d = old_self.kids@[i][m];
                assert(d != child);
                assert(d != r);
                if opt_at(l, idx - 1) == Some(d) {
                    assert(old_self.child_links_ok(pp, idx - 1));
                }
                if opt_at(l, idx + 1) == Some(d) {
                    assert(old_self.child_links_ok(pp, idx + 1));
                }
            }
        }
        assert forall|q: int| 0 <= q < new_self.free_list@.len() implies {
            let f = #[trigger] new_self.free_list@[q];
            &&& f < new_self.nodes@.len()
            &&& new_self.nodes@[f as int].freed
            &&& new_self.nodes@[f as int].parent is None
            &&& new_self.kids@[f as int].len() == 0
        } by {
            let f = new_self.free_list@[q];
            assert(old_self.nodes@[f as int].freed);
            assert(f as int != r.0 as int || true);
        }
    }

    /// Replaces `old_child` with `new_child` under `parent`. Observers of `parent`
    /// get a child-list record when `old_child` was its child.
    pub fn replace_child(&mut self, parent: NodeId, new_child: NodeId, old_child: NodeId)
        requires
            old(self).wf(),
            old(self).live(parent),
            old(self).live(new_child),
            old(self).valid(old_child),
            new_child != old_child,
        ensures
            final(self).wf(),
            final(self).kids@ == (if old(self).nodes@[old_child.0 as int].parent == Some(parent) {
                let k1 = kids_without(old(self).kids@, old(self).nodes@[new_child.0 as int].parent, new_child);
                k1.update(parent.0 as int, k1[parent.0 as int].update(k1[parent.0 as int].index_of(old_child), new_child))
            } else {
                old(self).kids@
            }),
            final(self).nodes@.len() == old(self).nodes@.len(),
            forall|j: int| 0 <= j < old(self).nodes@.len() ==> same_payload(#[trigger] final(self).nodes@[j], old(self).nodes@[j]),
            old(self).nodes@[old_child.0 as int].parent == Some(parent) ==> {
                &&& final(self).nodes@[old_child.0 as int].parent is None
                &&& final(self).nodes@[new_child.0 as int].parent == Some(parent)
                &&& final(self).id_index@ == index_after_attach(
                    match node_id_attr(old(self).nodes@[old_child.0 as int]) {
                        Some(s) => old(self).id_index@.remove(s),
                        None => old(self).id_index@,
                    },
                    old(self).nodes@[new_child.0 as int], new_child)
            },
            old(self).nodes@[old_child.0 as int].parent != Some(parent) ==> final(self).nodes == old(self).nodes
                && final(self).id_index == old(self).id_index,
            final(self).root == old(self).root,
            final(self).free_list == old(self).free_list,
            if old(self).nodes@[old_child.0 as int].parent == Some(parent) {
                final(self).child_list_recorded(old(self).mutation_observers@, parent)
            } else {
                final(self).mutation_observers == old(self).mutation_observers
            },
    {
        let was_child = opt_id_eq(self.nodes[old_child.0].parent, Some(parent));
        self.exchange_child(parent, new_child, old_child);
        if was_child {
            self.record_child_list(parent);
        }
    }

    /// Replaces `old_child` with `new_child` under `parent`, recording nothing.
    #[verifier::spinoff_prover]
    #[verifier::rlimit(50)]
    pub(crate) fn exchange_child(&mut self, parent: NodeId, new_child: NodeId, old_child: NodeId)
        requires
            old(self).wf(),
            old(self).live(parent),
            old(self).live(new_child),
            old(self).valid(old_child),
            new_child != old_child,
        ensures
            final(self).wf(),
            final(self).kids@ == (if old(self).nodes@[old_child.0 as int].parent == Some(parent) {
                let k1 = kids_without(old(self).kids@, old(self).nodes@[new_child.0 as int].parent, new_child);
                k1.update(parent.0 as int, k1[parent.0 as int].update(k1[parent.0 as int].index_of(old_child), new_child))
            } else {
                old(self).kids@
            }),
            final(self).nodes@.len() == old(self).nodes@.len(),
            forall|j: int| 0 <= j < old(self).nodes@.len() ==> same_payload(#[trigger] final(self).nodes@[j], old(self).nodes@[j]),
            old(self).nodes@[old_child.0 as int].parent == Some(parent) ==> {
                &&& final(self).nodes@[old_child.0 as int].parent is None
                &&& final(self).nodes@[new_child.0 as int].parent == Some(parent)
                &&& final(self).id_index@ == index_after_attach(
                    match node_id_attr(old(self).nodes@[old_child.0 as int]) {
                        Some(s) => old(self).id_index@.remove(s),
                        None => old(self).id_index@,
                    },
                    old(self).nodes@[new_child.0 as int], new_child)
            },
            old(self).nodes@[old_child.0 as int].parent != Some(parent) ==> final(self).nodes == old(self).nodes
                && final(self).id_index == old(self).id_index,
            final(self).root == old(self).root,
            final(self).free_list == old(self).free_list,
            final(self).mutation_observers == old(self).mutation_observers,
    {
        if !opt_id_eq(self.nodes[old_child.0].parent, Some(parent)) {
            return;
        }
        if self.nodes[new_child.0].parent.is_some() {
            self.unlink(new_child);
        }
        let ghost mid = *self;
        let ghost idx = mid.kids@[parent.0 as int].index_of(old_child);
        proof {
            assert(mid.node_links_ok(old_child.0 as int));
            assert(mid.node_links_ok(new_child.0 as int));
            assert(mid.node_links_ok(parent.0 as int));
            assert(0 <= idx < mid.kids@[parent.0 as int].len());
            assert(mid.child_links_ok(parent.0 as int, idx));
            if idx > 0 {
                assert(mid.child_links_ok(parent.0 as int, idx - 1));
            }
            if idx + 1 < mid.kids@[parent.0 as int].len() {
                assert(mid.child_links_ok(parent.0 as int, idx + 1));
            }
        }

        let prev = self.nodes[old_child.0].prev_sibling;
        let next = self.nodes[old_child.0].next_sibling;

        self.nodes[new_child.0].parent = Some(parent);
        self.nodes[new_child.0].prev_sibling = prev;
        self.nodes[new_child.0].next_sibling = next;

        if let Some(p) = prev {
            self.nodes[p.0].next_sibling = Some(new_child);
        } else {
            self.nodes[parent.0].first_child = Some(new_child);
        }

        if let Some(n) = next {
            self.nodes[n.0].prev_sibling = Some(new_child);
        } else {
            self.nodes[parent.0].last_child = Some(new_child);
        }

        if let NodeKind::Element(el) = &self.nodes[old_child.0].kind {
            if let Some(id) = &el.id {
                self.id_index.remove(id.as_str());
            }
        }
        self.nodes[old_child.0].parent = None;
        self.nodes[old_child.0].prev_sibling = None;
        self.nodes[old_child.0].next_sibling = None;

        if let NodeKind::Element(el) = &self.nodes[new_child.0].kind {
            if let Some(id) = &el.id {
                let key = id.clone();
                self.id_index.insert(key, new_child);
            }
        }
        proof {
            self.kids = Ghost(mid.kids@.update(parent.0 as int, mid.kids@[parent.0 as int].update(idx, new_child)));
            let c = new_child.0 as int;
            let pp = parent.0 as int;
            let l = mid.kids@[pp];
            let r = l[idx].0 as int;
            assert(r == old_child.0 as int);
            assert forall|j: int| 0 <= j < self.nodes@.len() implies {
                    let o = mid.nodes@[j];
                    let n = #[trigger] self.nodes@[j];
                    &&& n.parent == (if j == c { Some(parent) } else if j == r { None } else { o.parent })
                    &&& n.prev_sibling == (if j == c { opt_at(l, idx - 1) } else if j == r { None }
                        else if opt_at(l, idx + 1) == Some(NodeId(j as usize)) { Some(new_child) } else { o.prev_sibling })
                    &&& n.next_sibling == (if j == c { opt_at(l, idx + 1) } else if j == r { None }
                        else if opt_at(l, idx - 1) == Some(NodeId(j as usize)) { Some(new_child) } else { o.next_sibling })
                    &&& n.first_child == (if j == pp && idx == 0 { Some(new_child) } else { o.first_child })
                    &&& n.last_child == (if j == pp && idx == l.len() - 1 { Some(new_child) } else { o.last_child })
                } by {
            }
            Self::lemma_replace_child_wf(mid, *self, parent, new_child, idx);
        }
    }

    /// Appends `child` as the last child of `parent`.
    /// If `child` is already in the tree, it is first unlinked (DOM re-parenting).
    /// Observers of `parent` get a child-list record.
    pub fn append_child(&mut self, parent: NodeId, child: NodeId)
        requires
            old(self).wf(),
            old(self).live(parent),
            old(self).live(child),
        ensures
            final(self).wf(),
            final(self).kids@ == kids_appended(old(self).kids@, old(self).nodes@[child.0 as int].parent, parent, child),
            final(self).nodes@.len() == old(self).nodes@.len(),
            forall|j: int| 0 <= j < old(self).nodes@.len() ==> same_payload(#[trigger] final(self).nodes@[j], old(self).nodes@[j]),
            final(self).nodes@[child.0 as int].parent == Some(parent),
            final(self).root == old(self).root,
            final(self).free_list == old(self).free_list,
            final(self).id_index@ == index_after_attach(old(self).id_index@, old(self).nodes@[child.0 as int], child),
            final(self).child_list_recorded(old(self).mutation_observers@, parent),
    {
        self.attach_child(parent, child);
        self.record_child_list(parent);
    }

    /// Appends `child` as the last child of `parent`, recording nothing.
    pub(crate) fn attach_child(&mut self, parent: NodeId, child: NodeId)
        requires
            old(self).wf(),
            old(self).live(parent),
            old(self).live(child),
        ensures
            final(self).wf(),
            final(self).kids@ == kids_appended(old(self).kids@, old(self).nodes@[child.0 as int].parent, parent, child),
            final(self).nodes@.len() == old(self).nodes@.len(),
            forall|j: int| 0 <= j < old(self).nodes@.len() ==> same_payload(#[trigger] final(self).nodes@[j], old(self).nodes@[j]),
            final(self).nodes@[child.0 as int].parent == Some(parent),
            final(self).root == old(self).root,
            final(self).free_list == old(self).free_list,
            final(self).id_index@ == index_after_attach(old(self).id_index@, old(self).nodes@[child.0 as int], child),
            final(self).mutation_observers == old(self).mutation_observers,
    {
        let ghost old_parent = self.nodes@[child.0 as int].parent;
        if self.nodes[child.0].parent.is_some() {
            self.unlink(child);
        }
        let ghost mid = *self;
        proof {
            assert(mid.node_links_ok(child.0 as int));
            assert(mid.node_links_ok(parent.0 as int));
            let l = mid.kids@[parent.0 as int];
            if l.len() > 0 {
                assert(mid.child_links_ok(parent.0 as int, l.len() - 1));
            }
        }

        self.nodes[child.0].parent = Some(parent);

        let old_last = self.nodes[parent.0].last_child;
        if let Some(last) = old_last {
            self.nodes[last.0].next_sibling = Some(child);
            self.nodes[child.0].prev_sibling = Some(last);
        } else {
            self.nodes[parent.0].first_child = Some(child);
        }
        self.nodes[parent.0].last_child = Some(child);

        if let NodeKind::Element(el) = &self.nodes[child.0].kind {
            if let Some(id) = &el.id {
                let key = id.clone();
                self.id_index.insert(key, child);
            }
        }
        proof {
            self.kids = Ghost(mid.kids@.update(parent.0 as int, mid.kids@[parent.0 as int].push(child)));
            Self::lemma_push_child_wf(mid, *self, parent, child);
        }
    }

    proof fn lemma_unlink_wf(old_self: Document, new_self: Document, child: NodeId, k: int)
        requires
            old_self.wf(),
            old_self.valid(child),
            new_self.nodes@.len() == old_self.nodes@.len(),
            new_self.root == old_self.root,
            new_self.free_list == old_self.free_list,
            new_self.id_index == old_self.id_index,
            new_self.kids@ == kids_without(old_self.kids@, old_self.nodes@[child.0 as int].parent, child),
            old_self.nodes@[child.0 as int].parent matches Some(p) ==> k == old_self.kids@[p.0 as int].index_of(child),
            forall|j: int| 0 <= j < new_self.nodes@.len() ==> same_payload(#[trigger] new_self.nodes@[j], old_self.nodes@[j]),
            ({
                let c = child.0 as int;
                let on = old_self.nodes@[c];
                forall|j: int| 0 <= j < new_self.nodes@.len() ==> {
                    let o = old_self.nodes@[j];
                    let n = #[trigger] new_self.nodes@[j];
                    &&& n.parent == (if j == c { None } else { o.parent })
                    &&& n.prev_sibling == (if j == c { None } else if on.next_sibling == Some(NodeId(j as usize)) { on.prev_sibling } else { o.prev_sibling })
                    &&& n.next_sibling == (if j == c { None } else if on.prev_sibling == Some(NodeId(j as usize)) { on.next_sibling } else { o.next_sibling })
                    &&& n.first_child == (if on.parent == Some(NodeId(j as usize)) && o.first_child == Some(child) { on.next_sibling } else { o.first_child })
                    &&& n.last_child == (if on.parent == Some(NodeId(j as usize)) && o.last_child == Some(child) { on.prev_sibling } else { o.last_child })
                }
            }),
        ensures
            new_self.wf(),
    {
        let c = child.0 as int;
        let len = old_self.nodes@.len();
        assert(old_self.node_links_ok(c));
        match old_self.nodes@[c].parent {
            None => {
                assert(new_self.kids@ == old_self.kids@);
                assert forall|j: int| 0 <= j < len implies #[trigger] new_self.node_links_ok(j) by {
                    assert(old_self.node_links_ok(j));
                }
                assert forall|i: int, m: int| 0 <= i < len && 0 <= m < new_self.kids@[i].len()
                    implies #[trigger] new_self.child_links_ok(i, m) by {
                    assert(old_self.child_links_ok(i, m));
                    let d = old_self.kids@[i][m];
                    assert(d.0 != c);
                }
                assert forall|q: int| 0 <= q < new_self.free_list@.len() implies {
                    let f = #[trigger] new_self.free_list@[q];
                    &&& f < new_self.nodes@.len()
                    &&& new_self.nodes@[f as int].freed
                    &&& new_self.nodes@[f as int].parent is None
                    &&& new_self.kids@[f as int].len() == 0
                } by {
                    let f = new_self.free_list@[q];
                    assert(old_self.nodes@[f as int].parent is None);
                }
            },
            Some(p) => {
                let pp = p.0 as int;
                assert(old_self.node_links_ok(pp));
                let l = old_self.kids@[pp];
                assert(l.contains(child));
                assert(0 <= k < l.len() && l[k] == child);
                assert(old_self.child_links_ok(pp, k));
                let nl = l.remove(k);
                assert(new_self.kids@[pp] == nl);
                assert forall|j: int| 0 <= j < len implies #[trigger] new_self.node_links_ok(j) by {
                    assert(old_self.node_links_ok(j));
                    if j == pp {
                        if k > 0 {
                            assert(old_self.child_links_ok(pp, k - 1));
                            assert(l[0] != child);
                            assert(nl[0] == l[0]);
                        } else if l.len() > 1 {
                            assert(nl[0] == l[1]);
                        }
                        if k < l.len() - 1 {
                            assert(old_self.child_links_ok(pp, k + 1));
                            assert(l.last() != child);
                            assert(nl.last() == l.last());
                        } else if l.len() > 1 {
                            assert(nl.last() == l[l.len() - 2]);
                        }
                        assert forall|a: int, b: int| 0 <= a < nl.len() && 0 <= b < nl.len() && a != b implies nl[a] != nl[b] by {
                            let oa = if a < k { a } else { a + 1 };
                            let ob = if b < k { b } else { b + 1 };
                            assert(nl[a] == l[oa]);
                            assert(nl[b] == l[ob]);
                        }
                    } else {
                        if k > 0 && old_self.nodes@[c].prev_sibling == Some(NodeId(j as usize)) {
                            assert(old_self.child_links_ok(pp, k - 1));
                        }
                        if k < l.len() - 1 && old_self.nodes@[c].next_sibling == Some(NodeId(j as usize)) {
                            assert(old_self.child_links_ok(pp, k + 1));
                        }
                    }
                    if j != c {
                        if let Some(q) = old_self.nodes@[j].parent {
                            let ol = old_self.kids@[q.0 as int];
                            let m = choose|m: int| 0 <= m < ol.len() && ol[m] == NodeId(j as usize);
                            if q.0 as int == pp {
                                assert(ol == l);
                                assert(NodeId(j as usize) != child);
                                assert(m != k);
                                let nm = if m < k { m } else { m - 1 };
                                assert(nl[nm] == NodeId(j as usize));
                            } else {
                                assert(new_self.kids@[q.0 as int] == ol);
                                assert(ol[m] == NodeId(j as usize));
                            }
                        } else {
                            if old_self.nodes@[c].prev_sibling == Some(NodeId(j as usize)) {
                                assert(old_self.child_links_ok(pp, k - 1));
                            }
                            if old_self.nodes@[c].next_sibling == Some(NodeId(j as usize)) {
                                assert(old_self.child_links_ok(pp, k + 1));
                            }
                        }
                    }
                }
                assert forall|i: int, m: int| 0 <= i < len && 0 <= m < new_self.kids@[i].len()
                    implies #[trigger] new_self.child_links_ok(i, m) by {
                    if i == pp {
                        let om = if m < k { m } else { m + 1 };
                        assert(nl[m] == l[om]);
                        assert(old_self.child_links_ok(pp, om));
                        if om > 0 { assert(old_self.child_links_ok(pp, om - 1)); }
                        if om < l.len() - 1 { assert(old_self.child_links_ok(pp, om + 1)); }
                        if k > 0 { assert(old_self.child_links_ok(pp, k - 1)); }
                        if k < l.len() - 1 { assert(old_self.child_links_ok(pp, k + 1)); }
                        assert(l[om] != child);
                        if m > 0 {
                            let om1 = if m - 1 < k { m - 1 } else { m };
                            assert(nl[m - 1] == l[om1]);
                        }
                        if m < nl.len() - 1 {
                            let om2 = if m + 1 < k { m + 1 } else { m + 2 };
                            assert(nl[m + 1] == l[om2]);
                        }
                    } else {
                        assert(new_self.kids@[i] == old_self.kids@[i]);
                        assert(old_self.child_links_ok(i, m));
                        let d = old_self.kids@[i][m];
                        assert(d != child);
                        if k > 0 {
                            assert(old_self.child_links_ok(pp, k - 1));
                        }
                        if k < l.len() - 1 {
                            assert(old_self.child_links_ok(pp, k + 1));
                        }
                    }
                }
                assert forall|q: int| 0 <= q < new_self.free_list@.len() implies {
                    let f = #[trigger] new_self.free_list@[q];
                    &&& f < new_self.nodes@.len()
                    &&& new_self.nodes@[f as int].freed
                    &&& new_self.nodes@[f as int].parent is None
                    &&& new_self.kids@[f as int].len() == 0
                } by {
                    let f = new_self.free_list@[q];
                    assert(old_self.nodes@[f as int].parent is None);
                    assert(f as int != pp);
                }
            },
        }
    }

    /// Unlinks a node from its current parent (if any) without freeing it.
    pub(crate) fn unlink(&mut self, child: NodeId)
        requires
            old(self).wf(),
            old(self).valid(child),
        ensures
            final(self).wf(),
            final(self).kids@ == kids_without(old(self).kids@, old(self).nodes@[child.0 as int].parent, child),
            final(self).nodes@.len() == old(self).nodes@.len(),
            forall|j: int| 0 <= j < old(self).nodes@.len() ==> same_payload(#[trigger] final(self).nodes@[j], old(self).nodes@[j]),
            final(self).nodes@[child.0 as int].parent is None,
            forall|j: int| 0 <= j < old(self).nodes@.len() && j != child.0 ==> #[trigger] final(self).nodes@[j].parent == old(self).nodes@[j].parent,
            final(self).root == old(self).root,
            final(self).free_list == old(self).free_list,
            final(self).id_index == old(self).id_index,
            final(self).mutation_observers == old(self).mutation_observers,
    {
        let ghost old_self = *self;
        let ghost c = child.0 as int;
        let parent_id = self.nodes[child.0].parent;
        let prev = self.nodes[child.0].prev_sibling;
        let next = self.nodes[child.0].next_sibling;
        proof {
            assert(old_self.node_links_ok(c));
        }
        let ghost k: int = match parent_id { Some(p) => old_self.kids@[p.0 as int].index_of(child), None => 0 };
        proof {
            if let Some(p) = parent_id {
                assert(old_self.node_links_ok(p.0 as int));
                assert(old_self.child_links_ok(p.0 as int, k));
                if k > 0 { assert(old_self.child_links_ok(p.0 as int, k - 1)); }
                if k < old_self.kids@[p.0 as int].len() - 1 { assert(old_self.child_links_ok(p.0 as int, k + 1)); }
            }
        }

        if let Some(p) = prev {
            self.nodes[p.0].next_sibling = next;
        }
        if let Some(n) = next {
            self.nodes[n.0].prev_sibling = prev;
        }
        if let Some(pid) = parent_id {
            if opt_id_eq(self.nodes[pid.0].first_child, Some(child)) {
                self.nodes[pid.0].first_child = next;
            }
            if opt_id_eq(self.nodes[pid.0].last_child, Some(child)) {
                self.nodes[pid.0].last_child = prev;
            }
        }
        self.nodes[child.0].parent = None;
        self.nodes[child.0].prev_sibling = None;
        self.nodes[child.0].next_sibling = None;

        proof {
            let nk = kids_without(old_self.kids@, parent_id, child);
            self.kids = Ghost(nk);
            let on = old_self.nodes@[c];
            assert forall|j: int| 0 <= j < self.nodes@.len() implies {
                    let o = old_self.nodes@[j];
                    let n = #[trigger] self.nodes@[j];
                    &&& n.parent == (if j == c { None } else { o.parent })
                    &&& n.prev_sibling == (if j == c { None } else if on.next_sibling == Some(NodeId(j as usize)) { on.prev_sibling } else { o.prev_sibling })
                    &&& n.next_sibling == (if j == c { None } else if on.prev_sibling == Some(NodeId(j as usize)) { on.next_sibling } else { o.next_sibling })
                    &&& n.first_child == (if on.parent == Some(NodeId(j as usize)) && o.first_child == Some(child) { on.next_sibling } else { o.first_child })
                    &&& n.last_child == (if on.parent == Some(NodeId(j as usize)) && o.last_child == Some(child) { on.prev_sibling } else { o.last_child })
                } by {
            }
            Self::lemma_unlink_wf(old_self, *self, child, k);
        }
    }
}

} // verus!
