//! Whole-subtree operations: freeing, text content.

use vstd::prelude::*;
use super::{Document, same_payload};
use super::node::{NodeId, NodeData, NodeKind, ElementData};
use super::attributes::{attrs_view, strs_view};
use super::tree::{kids_appended, node_id_attr, opt_id_eq};
use crate::text::push_str;

verus! {

/// The text of a node: its own text for a text node, else the text of its children
/// (descending at most `fuel` levels).
pub open spec fn text_of(nodes: Seq<NodeData>, kids: Seq<Seq<NodeId>>, id: NodeId, fuel: nat) -> Seq<char>
    decreases fuel, 0int,
{
    match nodes[id.0 as int].kind {
        NodeKind::Text(s) => s@,
        _ => if fuel == 0 { Seq::empty() } else { texts_of(nodes, kids, kids[id.0 as int], (fuel - 1) as nat) },
    }
}

/// The concatenated text of the nodes `cs`.
pub open spec fn texts_of(nodes: Seq<NodeData>, kids: Seq<Seq<NodeId>>, cs: Seq<NodeId>, fuel: nat) -> Seq<char>
    decreases fuel, cs.len() + 1,
{
    if cs.len() == 0 {
        Seq::empty()
    } else {
        texts_of(nodes, kids, cs.drop_last(), fuel) + text_of(nodes, kids, cs.last(), fuel)
    }
}

/// The node reached from `j` by following `k` parent links, if every step has one.
pub open spec fn up(nodes: Seq<NodeData>, j: NodeId, k: nat) -> Option<NodeId>
    decreases k,
{
    if k == 0 {
        Some(j)
    } else {
        match up(nodes, j, (k - 1) as nat) {
            Some(m) => if m.0 < nodes.len() { nodes[m.0 as int].parent } else { None },
            None => None,
        }
    }
}

/// Every parent link of `b` is one of `a` (links were only cut).
pub open spec fn parents_kept(b: Seq<NodeData>, a: Seq<NodeData>) -> bool {
    &&& b.len() == a.len()
    &&& forall|j: int| 0 <= j < b.len() ==> (#[trigger] b[j]).parent is None || b[j].parent == a[j].parent
}

/// Following parent links where only some were cut reaches what it reached before.
pub proof fn lemma_up_kept(b: Seq<NodeData>, a: Seq<NodeData>, j: NodeId, k: nat)
    requires
        parents_kept(b, a),
        up(b, j, k) is Some,
    ensures
        up(a, j, k) == up(b, j, k),
    decreases k,
{
    if k > 0 {
        lemma_up_kept(b, a, j, (k - 1) as nat);
        let m = up(b, j, (k - 1) as nat).unwrap();
        if m.0 < b.len() {
            assert(b[m.0 as int].parent is None || b[m.0 as int].parent == a[m.0 as int].parent);
        }
    }
}

/// One more parent link after `k` of them.
pub proof fn lemma_up_step(nodes: Seq<NodeData>, j: NodeId, k: nat, c: NodeId, x: NodeId)
    requires
        up(nodes, j, k) == Some(c),
        c.0 < nodes.len(),
        nodes[c.0 as int].parent == Some(x),
    ensures
        up(nodes, j, k + 1) == Some(x),
{
    assert(up(nodes, j, (k + 1 - 1) as nat) == Some(c));
}

/// Cutting links twice only cuts links.
pub proof fn lemma_parents_kept_trans(c: Seq<NodeData>, b: Seq<NodeData>, a: Seq<NodeData>)
    requires
        parents_kept(c, b),
        parents_kept(b, a),
    ensures
        parents_kept(c, a),
{
    assert forall|j: int| 0 <= j < c.len() implies (#[trigger] c[j]).parent is None || c[j].parent == a[j].parent by {
        assert(c[j].parent is None || c[j].parent == b[j].parent);
        assert(b[j].parent is None || b[j].parent == a[j].parent);
    }
}

/// Following `a` links and then `b` more.
pub proof fn lemma_up_add(nodes: Seq<NodeData>, j: NodeId, a: nat, m: NodeId, b: nat)
    requires
        up(nodes, j, a) == Some(m),
    ensures
        up(nodes, j, a + b) == up(nodes, m, b),
    decreases b,
{
    if b > 0 {
        lemma_up_add(nodes, j, a, m, (b - 1) as nat);
        assert(up(nodes, j, (a + b - 1) as nat) == up(nodes, m, (b - 1) as nat));
    }
}

/// Two nodes above `n` lie one above the other.
pub proof fn lemma_up_order(nodes: Seq<NodeData>, n: NodeId, a1: nat, c1: NodeId, a2: nat, c2: NodeId)
    requires
        up(nodes, n, a1) == Some(c1),
        up(nodes, n, a2) == Some(c2),
        a1 <= a2,
    ensures
        up(nodes, c1, (a2 - a1) as nat) == Some(c2),
{
    lemma_up_add(nodes, n, a1, c1, (a2 - a1) as nat);
    assert(a1 + (a2 - a1) as nat == a2);
}

/// Two distinct children of `x`, one below the other, put `x` on a cycle.
pub proof fn lemma_sibling_cycle(nodes: Seq<NodeData>, c: NodeId, c2: NodeId, x: NodeId, d: nat)
    requires
        c != c2,
        c.0 < nodes.len(),
        c2.0 < nodes.len(),
        nodes[c.0 as int].parent == Some(x),
        nodes[c2.0 as int].parent == Some(x),
        up(nodes, c, d) == Some(c2),
    ensures
        d >= 1,
        up(nodes, x, d) == Some(x),
{
    lemma_up_step(nodes, c, d, c2, x);
    assert(up(nodes, c, 1) == Some(x)) by {
        assert(up(nodes, c, 0) == Some(c));
    }
    lemma_up_add(nodes, c, 1, x, d);
    assert(1 + d == d + 1);
}

/// Following links gives the same nodes where none of the links passed was changed.
pub proof fn lemma_up_same(b: Seq<NodeData>, a: Seq<NodeData>, j: NodeId, k: nat)
    requires
        b.len() == a.len(),
        forall|t: nat| t < k && (#[trigger] up(a, j, t)) is Some && up(a, j, t).unwrap().0 < a.len()
            ==> b[up(a, j, t).unwrap().0 as int].parent == a[up(a, j, t).unwrap().0 as int].parent,
    ensures
        up(b, j, k) == up(a, j, k),
    decreases k,
{
    if k > 0 {
        lemma_up_same(b, a, j, (k - 1) as nat);
        let t = (k - 1) as nat;
        assert(up(a, j, t) == up(a, j, t));
    }
}

/// Where the links changed were only `cs[i]`'s own and those below earlier
/// children of `x`, the links from a node below `cs[i]` up to it are as they were,
/// unless `x` is on a cycle.
pub proof fn lemma_path_to_child(b: Seq<NodeData>, a: Seq<NodeData>, x: NodeId, cs: Seq<NodeId>, i: int, j: NodeId, k: nat)
    requires
        b.len() == a.len(),
        0 <= i < cs.len(),
        cs.no_duplicates(),
        forall|m: int| 0 <= m < cs.len() ==> (#[trigger] cs[m]).0 < a.len() && a[cs[m].0 as int].parent == Some(x),
        forall|q: int| 0 <= q < a.len() && (#[trigger] b[q]).parent != a[q].parent ==>
            NodeId(q as usize) == cs[i] || exists|m: int, d: nat| #![trigger up(a, NodeId(q as usize), d), cs[m]]
                0 <= m < i && up(a, NodeId(q as usize), d) == Some(cs[m]),
        up(a, j, k) == Some(cs[i]),
        !(exists|d: nat| d >= 1 && #[trigger] up(a, x, d) == Some(x)),
    ensures
        up(b, j, k) == Some(cs[i]),
{
    let c = cs[i];
    assert forall|t: nat| t < k && (#[trigger] up(a, j, t)) is Some && up(a, j, t).unwrap().0 < a.len()
        implies b[up(a, j, t).unwrap().0 as int].parent == a[up(a, j, t).unwrap().0 as int].parent by {
        let n = up(a, j, t).unwrap();
        let q = n.0 as int;
        if b[q].parent != a[q].parent {
            assert(NodeId(q as usize) == n);
            lemma_up_order(a, j, t, n, k, c);
            let e = (k - t) as nat;
            if n == c {
                lemma_up_add(a, c, e, c, 1);
                assert(up(a, c, 1) == Some(x)) by { assert(up(a, c, 0) == Some(c)); }
                lemma_up_add(a, c, 1, x, e);
                assert(e + 1 == 1 + e);
                assert(up(a, x, e) == Some(x));
            } else {
                let (m, d) = choose|m: int, d: nat| #![trigger up(a, NodeId(q as usize), d), cs[m]]
                    0 <= m < i && up(a, NodeId(q as usize), d) == Some(cs[m]);
                let c2 = cs[m];
                assert(c2 != c);
                if e <= d {
                    lemma_up_order(a, n, e, c, d, c2);
                    lemma_sibling_cycle(a, c, c2, x, (d - e) as nat);
                } else {
                    lemma_up_order(a, n, d, c2, e, c);
                    lemma_sibling_cycle(a, c2, c, x, (e - d) as nat);
                }
            }
        }
    }
    lemma_up_same(b, a, j, k);
}

/// A child of `x` is on no cycle when `x` is on none, nor after links are cut.
pub proof fn lemma_child_off_cycle(b: Seq<NodeData>, a: Seq<NodeData>, c: NodeId, x: NodeId)
    requires
        parents_kept(b, a),
        c.0 < a.len(),
        a[c.0 as int].parent == Some(x),
        !(exists|d: nat| d >= 1 && #[trigger] up(a, x, d) == Some(x)),
    ensures
        !(exists|d: nat| d >= 1 && #[trigger] up(b, c, d) == Some(c)),
{
    if exists|d: nat| d >= 1 && #[trigger] up(b, c, d) == Some(c) {
        let d = choose|d: nat| d >= 1 && #[trigger] up(b, c, d) == Some(c);
        lemma_up_kept(b, a, c, d);
        lemma_up_add(a, c, d, c, 1);
        assert(up(a, c, 1) == Some(x)) by { assert(up(a, c, 0) == Some(c)); }
        lemma_up_add(a, c, 1, x, d);
        assert(d + 1 == 1 + d);
        assert(up(a, x, d) == Some(x));
    }
}

impl Document {
    /// `j` is `x` or lies below it: following parent links from `j` reaches `x`.
    pub open spec fn below(&self, j: NodeId, x: NodeId) -> bool {
        exists|k: nat| up(self.nodes@, j, k) == Some(x)
    }

    /// Following parent links from `x` leads back to `x`.
    pub open spec fn on_cycle(&self, x: NodeId) -> bool {
        exists|k: nat| k >= 1 && up(self.nodes@, x, k) == Some(x)
    }

    /// Every node that `self` has freed, and `before` had not, lay below `x` in `before`.
    pub open spec fn freed_only_below(&self, before: Document, x: NodeId) -> bool {
        forall|j: int| 0 <= j < before.nodes@.len() && !before.nodes@[j].freed && (#[trigger] self.nodes@[j]).freed
            ==> before.below(NodeId(j as usize), x)
    }
}

impl Document {
    /// The text content of `id` and all its descendants.
    pub open spec fn text_content_of(&self, id: NodeId) -> Seq<char> {
        text_of(self.nodes@, self.kids@, id, self.nodes@.len())
    }

    /// Every children list is at most as long as before.
    pub open spec fn kids_not_longer(&self, before: Document) -> bool {
        &&& self.kids@.len() == before.kids@.len()
        &&& forall|j: int| 0 <= j < before.kids@.len() ==> #[trigger] self.kids@[j].len() <= before.kids@[j].len()
    }

    /// Appends the text of `id` to `out`.
    fn collect_text(&self, id: NodeId, out: &mut String, fuel: usize)
        requires
            self.wf(),
            self.valid(id),
        ensures
            final(out)@ == old(out)@ + text_of(self.nodes@, self.kids@, id, fuel as nat),
        decreases fuel,
    {
        match &self.nodes[id.0].kind {
            NodeKind::Text(s) => {
                push_str(out, s.as_str());
            },
            _ => {
                if fuel == 0 {
                    proof { assert(old(out)@ + Seq::<char>::empty() =~= old(out)@); }
                    return;
                }
                let ghost cs = self.kids@[id.0 as int];
                let ghost start = out@;
                proof {
                    self.lemma_kids_valid(id);
                    assert(cs.subrange(0, 0) =~= Seq::<NodeId>::empty());
                    assert(start + Seq::<char>::empty() =~= start);
                }
                let children = self.children(id);
                let mut i: usize = 0;
                while i < children.len()
                    invariant
                        self.wf(),
                        fuel > 0,
                        children@ == cs,
                        forall|k: int| 0 <= k < cs.len() ==> self.valid(#[trigger] cs[k]),
                        i <= cs.len(),
                        out@ == start + texts_of(self.nodes@, self.kids@, cs.subrange(0, i as int), (fuel - 1) as nat),
                    decreases cs.len() - i,
                {
                    let c = children[i];
                    self.collect_text(c, out, fuel - 1);
                    proof {
                        let w = cs.subrange(0, i + 1);
                        assert(w.drop_last() =~= cs.subrange(0, i as int));
                        assert(w.last() == c);
                    }
                    i += 1;
                }
                proof { assert(cs.subrange(0, cs.len() as int) =~= cs); }
            },
        }
    }

    /// Returns the concatenated text content of a node and all its descendants.
    pub fn text_content(&self, id: NodeId) -> (r: String)
        requires
            self.wf(),
            self.valid(id),
        ensures
            r@ == self.text_content_of(id),
    {
        let mut out = String::new();
        self.collect_text(id, &mut out, self.nodes.len());
        proof { assert(out@ =~= self.text_content_of(id)); }
        out
    }

    /// Frees a detached node that has no children (no effect on an already freed node).
    fn free_leaf(&mut self, x: NodeId)
        requires
            old(self).wf(),
            old(self).valid(x),
            old(self).nodes@[x.0 as int].parent is None,
            old(self).kids@[x.0 as int].len() == 0,
        ensures
            final(self).wf(),
            final(self).nodes@.len() == old(self).nodes@.len(),
            final(self).nodes@[x.0 as int].freed,
            final(self).nodes@[x.0 as int].kind == old(self).nodes@[x.0 as int].kind,
            final(self).nodes@[x.0 as int].parent is None,
            forall|j: int| 0 <= j < old(self).nodes@.len() && j != x.0 ==> #[trigger] final(self).nodes@[j] == old(self).nodes@[j],
            final(self).kids == old(self).kids,
            final(self).root == old(self).root,
            final(self).mutation_observers == old(self).mutation_observers,
            old(self).nodes@[x.0 as int].freed ==> *final(self) == *old(self),
            !old(self).nodes@[x.0 as int].freed ==> {
                &&& final(self).free_list@ == old(self).free_list@.push(x.0)
                &&& final(self).id_index@ == (match node_id_attr(old(self).nodes@[x.0 as int]) {
                    Some(s) => old(self).id_index@.remove(s),
                    None => old(self).id_index@,
                })
            },
    {
        if self.nodes[x.0].freed {
            return;
        }
        let ghost old_self = *self;
        proof {
            assert(old_self.node_links_ok(x.0 as int));
            if old_self.free_list@.contains(x.0) {
                let q = choose|q: int| 0 <= q < old_self.free_list@.len() && old_self.free_list@[q] == x.0;
                assert(old_self.nodes@[old_self.free_list@[q] as int].freed);
            }
        }
        match &self.nodes[x.0].kind {
            NodeKind::Element(el) => {
                match &el.id {
                    Some(eid) => self.id_index.remove(eid.as_str()),
                    None => {},
                }
            },
            _ => {},
        }
        self.nodes[x.0].freed = true;
        self.nodes[x.0].parent = None;
        self.nodes[x.0].first_child = None;
        self.nodes[x.0].last_child = None;
        self.nodes[x.0].prev_sibling = None;
        self.nodes[x.0].next_sibling = None;
        self.free_list.push(x.0);
        proof {
            let len = self.nodes@.len();
            assert forall|i: int| 0 <= i < len implies #[trigger] self.node_links_ok(i) by {
                assert(old_self.node_links_ok(i));
                if let Some(p) = self.nodes@[i].parent {
                    assert(self.kids@[p.0 as int] == old_self.kids@[p.0 as int]);
                }
            }
            assert forall|i: int, k: int| 0 <= i < len && 0 <= k < self.kids@[i].len()
                implies #[trigger] self.child_links_ok(i, k) by {
                assert(old_self.child_links_ok(i, k));
                let c = self.kids@[i][k];
                assert(c.0 != x.0);
            }
            assert forall|q: int| 0 <= q < self.free_list@.len() implies {
                let f = #[trigger] self.free_list@[q];
                &&& f < self.nodes@.len()
                &&& self.nodes@[f as int].freed
                &&& self.nodes@[f as int].parent is None
                &&& self.kids@[f as int].len() == 0
            } by {
                if q < old_self.free_list@.len() {
                    assert(self.free_list@[q] == old_self.free_list@[q]);
                }
            }
            assert forall|a: int, b: int| 0 <= a < self.free_list@.len() && 0 <= b < self.free_list@.len() && a != b
                implies self.free_list@[a] != self.free_list@[b] by {
                if a < old_self.free_list@.len() && b < old_self.free_list@.len() {
                    assert(self.free_list@[a] == old_self.free_list@[a]);
                    assert(self.free_list@[b] == old_self.free_list@[b]);
                } else if a < old_self.free_list@.len() {
                    assert(self.free_list@[a] == old_self.free_list@[a]);
                    assert(old_self.free_list@.contains(self.free_list@[a]));
                } else if b < old_self.free_list@.len() {
                    assert(self.free_list@[b] == old_self.free_list@[b]);
                    assert(old_self.free_list@.contains(self.free_list@[b]));
                }
            }
            assert(self.nodes@[x.0 as int].kind == old_self.nodes@[x.0 as int].kind);
        }
    }

    /// Detaches every child of `x`, leaving the children themselves in the arena.
    fn detach_children(&mut self, x: NodeId)
        requires
            old(self).wf(),
            old(self).valid(x),
        ensures
            final(self).wf(),
            final(self).nodes@.len() == old(self).nodes@.len(),
            final(self).kids@[x.0 as int].len() == 0,
            final(self).kids_not_longer(*old(self)),
            forall|j: int| 0 <= j < old(self).nodes@.len() ==> same_payload(#[trigger] final(self).nodes@[j], old(self).nodes@[j]),
            forall|j: int| 0 <= j < old(self).nodes@.len() && old(self).nodes@[j].parent is None
                ==> (#[trigger] final(self).nodes@[j]).parent is None,
            parents_kept(final(self).nodes@, old(self).nodes@),
            forall|j: int| 0 <= j < old(self).nodes@.len() && (#[trigger] final(self).nodes@[j]).parent != old(self).nodes@[j].parent
                ==> old(self).nodes@[j].parent == Some(x),
            final(self).root == old(self).root,
            final(self).free_list == old(self).free_list,
            final(self).id_index == old(self).id_index,
            final(self).mutation_observers == old(self).mutation_observers,
    {
        let ghost old_self = *self;
        loop
            invariant
                parents_kept(self.nodes@, old_self.nodes@),
                forall|j: int| 0 <= j < old_self.nodes@.len() && (#[trigger] self.nodes@[j]).parent != old_self.nodes@[j].parent
                    ==> old_self.nodes@[j].parent == Some(x),
                self.wf(),
                self.valid(x),
                self.nodes@.len() == old_self.nodes@.len(),
                self.kids_not_longer(old_self),
                forall|j: int| 0 <= j < old_self.nodes@.len() ==> same_payload(#[trigger] self.nodes@[j], old_self.nodes@[j]),
                forall|j: int| 0 <= j < old_self.nodes@.len() && old_self.nodes@[j].parent is None
                    ==> (#[trigger] self.nodes@[j]).parent is None,
                self.root == old_self.root,
                self.free_list == old_self.free_list,
                self.id_index == old_self.id_index,
                self.mutation_observers == old_self.mutation_observers,
            ensures
                self.kids@[x.0 as int].len() == 0,
            decreases self.kids@[x.0 as int].len(),
        {
            let first = self.first_child(x);
            match first {
                None => {
                    break;
                },
                Some(c) => {
                    let ghost before = *self;
                    proof {
                        assert(before.child_links_ok(x.0 as int, 0));
                        assert(before.kids@[x.0 as int][0] == c);
                        assert(before.kids@[x.0 as int].contains(c));
                    }
                    self.unlink(c);
                    proof {
                        assert(parents_kept(self.nodes@, before.nodes@));
                        lemma_parents_kept_trans(self.nodes@, before.nodes@, old_self.nodes@);
                        assert(before.child_links_ok(x.0 as int, 0));
                        assert(old_self.nodes@[c.0 as int].parent == Some(x));
                        assert forall|j: int| 0 <= j < old_self.nodes@.len() && (#[trigger] self.nodes@[j]).parent != old_self.nodes@[j].parent
                            implies old_self.nodes@[j].parent == Some(x) by {
                            if j != c.0 {
                                assert(self.nodes@[j].parent == before.nodes@[j].parent);
                            }
                        }
                        assert(self.kids@[x.0 as int].len() == before.kids@[x.0 as int].len() - 1);
                        assert forall|j: int| 0 <= j < old_self.kids@.len() implies #[trigger] self.kids@[j].len() <= old_self.kids@[j].len() by {
                            assert(self.kids@[j].len() <= before.kids@[j].len());
                        }
                    }
                },
            }
        }
    }

    /// Frees `x` and, descending at most `fuel` levels, all its descendants, in
    /// post-order: each child's subtree first, then `x`.
    fn free_subtree(&mut self, x: NodeId, fuel: usize)
        requires
            old(self).wf(),
            old(self).valid(x),
            old(self).nodes@[x.0 as int].parent is None,
        ensures
            final(self).wf(),
            final(self).nodes@.len() == old(self).nodes@.len(),
            final(self).nodes@[x.0 as int].freed,
            final(self).kids_not_longer(*old(self)),
            forall|j: int| 0 <= j < old(self).nodes@.len() && old(self).nodes@[j].parent is None
                ==> (#[trigger] final(self).nodes@[j]).parent is None,
            forall|j: int| 0 <= j < old(self).nodes@.len() && old(self).nodes@[j].freed
                ==> (#[trigger] final(self).nodes@[j]).freed,
            old(self).free_list@.len() <= final(self).free_list@.len(),
            final(self).free_list@.subrange(0, old(self).free_list@.len() as int) == old(self).free_list@,
            final(self).root == old(self).root,
            final(self).mutation_observers == old(self).mutation_observers,
            parents_kept(final(self).nodes@, old(self).nodes@),
            final(self).freed_only_below(*old(self), x),
            forall|j: int| 0 <= j < old(self).nodes@.len() ==> (#[trigger] final(self).nodes@[j]).kind == old(self).nodes@[j].kind,
            final(self).id_index@.dom().subset_of(old(self).id_index@.dom()),
            forall|j: int| 0 <= j < old(self).nodes@.len() && !old(self).nodes@[j].freed && (#[trigger] final(self).nodes@[j]).freed
                ==> (node_id_attr(old(self).nodes@[j]) matches Some(s) ==> !final(self).id_index@.contains_key(s)),
            forall|q: int| old(self).free_list@.len() <= q < final(self).free_list@.len()
                ==> !old(self).nodes@[#[trigger] final(self).free_list@[q] as int].freed,
            forall|j: int| 0 <= j < old(self).nodes@.len() && !old(self).nodes@[j].freed && (#[trigger] final(self).nodes@[j]).freed
                ==> final(self).free_list@.contains(j as usize),
            forall|q: int| 0 <= q < old(self).nodes@.len() && (#[trigger] final(self).nodes@[q]).parent != old(self).nodes@[q].parent
                ==> old(self).below(NodeId(q as usize), x),
            !old(self).on_cycle(x) ==> forall|j: NodeId, k: nat| j.0 < old(self).nodes@.len() && k <= fuel
                && #[trigger] up(old(self).nodes@, j, k) == Some(x) ==> final(self).nodes@[j.0 as int].freed,
        decreases fuel,
    {
        let ghost old_self = *self;
        proof { self.lemma_kids_valid(x); }
        let children = self.children(x);
        let mut i: usize = 0;
        while i < children.len()
            invariant
                self.wf(),
                self.valid(x),
                forall|k: int| 0 <= k < children@.len() ==> self.valid(#[trigger] children@[k]),
                i <= children@.len(),
                self.nodes@.len() == old_self.nodes@.len(),
                self.kids_not_longer(old_self),
                forall|j: int| 0 <= j < old_self.nodes@.len() && old_self.nodes@[j].parent is None
                    ==> (#[trigger] self.nodes@[j]).parent is None,
                forall|j: int| 0 <= j < old_self.nodes@.len() && old_self.nodes@[j].freed
                    ==> (#[trigger] self.nodes@[j]).freed,
                old_self.free_list@.len() <= self.free_list@.len(),
                self.free_list@.subrange(0, old_self.free_list@.len() as int) == old_self.free_list@,
                self.root == old_self.root,
                self.mutation_observers == old_self.mutation_observers,
                parents_kept(self.nodes@, old_self.nodes@),
                self.freed_only_below(old_self, x),
                forall|j: int| 0 <= j < old_self.nodes@.len() ==> (#[trigger] self.nodes@[j]).kind == old_self.nodes@[j].kind,
                self.id_index@.dom().subset_of(old_self.id_index@.dom()),
                forall|j: int| 0 <= j < old_self.nodes@.len() && !old_self.nodes@[j].freed && (#[trigger] self.nodes@[j]).freed
                    ==> (node_id_attr(old_self.nodes@[j]) matches Some(s) ==> !self.id_index@.contains_key(s)),
                forall|q: int| old_self.free_list@.len() <= q < self.free_list@.len()
                    ==> !old_self.nodes@[#[trigger] self.free_list@[q] as int].freed,
                forall|j: int| 0 <= j < old_self.nodes@.len() && !old_self.nodes@[j].freed && (#[trigger] self.nodes@[j]).freed
                    ==> self.free_list@.contains(j as usize),
                children@ == old_self.kids@[x.0 as int],
                old_self.wf(),
                old_self.valid(x),
                forall|q: int| 0 <= q < old_self.nodes@.len() && (#[trigger] self.nodes@[q]).parent != old_self.nodes@[q].parent
                    ==> exists|m: int, d: nat| #![trigger up(old_self.nodes@, NodeId(q as usize), d), children@[m]]
                        0 <= m < i && up(old_self.nodes@, NodeId(q as usize), d) == Some(children@[m]),
                !old_self.on_cycle(x) ==> forall|m: int, j: NodeId, k: nat| #![trigger up(old_self.nodes@, j, k), children@[m]]
                    0 <= m < i && j.0 < old_self.nodes@.len() && k < fuel && up(old_self.nodes@, j, k) == Some(children@[m])
                    ==> self.nodes@[j.0 as int].freed,
            decreases children@.len() - i,
        {
            let c = children[i];
            let ghost before = *self;
            proof {
                assert(old_self.child_links_ok(x.0 as int, i as int));
                assert(old_self.node_links_ok(x.0 as int));
                assert forall|m: int| 0 <= m < children@.len() implies (#[trigger] children@[m]).0 < old_self.nodes@.len()
                    && old_self.nodes@[children@[m].0 as int].parent == Some(x) by {
                    assert(old_self.child_links_ok(x.0 as int, m));
                }
                if !old_self.on_cycle(x) && before.nodes@[c.0 as int].parent != Some(x) {
                    let (m, d) = choose|m: int, d: nat| #![trigger up(old_self.nodes@, NodeId(c.0 as usize), d), children@[m]]
                        0 <= m < i && up(old_self.nodes@, NodeId(c.0 as usize), d) == Some(children@[m]);
                    assert(NodeId(c.0 as usize) == c);
                    assert(children@[m] != c);
                    lemma_sibling_cycle(old_self.nodes@, c, children@[m], x, d);
                    assert(old_self.on_cycle(x));
                }
            }
            if opt_id_eq(self.nodes[c.0].parent, Some(x)) {
                proof {
                    assert(before.node_links_ok(c.0 as int));
                    assert(before.kids@[x.0 as int].contains(c));
                }
                self.unlink(c);
                proof {
                    assert forall|j: int| 0 <= j < old_self.kids@.len() implies #[trigger] self.kids@[j].len() <= old_self.kids@[j].len() by {
                        assert(self.kids@[j].len() <= before.kids@[j].len());
                    }
                    assert(self.free_list@.subrange(0, old_self.free_list@.len() as int) =~= old_self.free_list@);
                    assert(parents_kept(self.nodes@, before.nodes@));
                    lemma_parents_kept_trans(self.nodes@, before.nodes@, old_self.nodes@);
                    assert forall|j: int| 0 <= j < old_self.nodes@.len() && !old_self.nodes@[j].freed && (#[trigger] self.nodes@[j]).freed
                        implies old_self.below(NodeId(j as usize), x) by {
                        assert(before.nodes@[j].freed);
                    }
                    assert(old_self.nodes@[c.0 as int].parent == Some(x));
                    assert forall|q: int| 0 <= q < old_self.nodes@.len() && (#[trigger] self.nodes@[q]).parent != old_self.nodes@[q].parent
                        implies NodeId(q as usize) == children@[i as int] || exists|m: int, d: nat| #![trigger up(old_self.nodes@, NodeId(q as usize), d), children@[m]]
                            0 <= m < i && up(old_self.nodes@, NodeId(q as usize), d) == Some(children@[m]) by {
                        if q != c.0 {
                            assert(self.nodes@[q].parent == before.nodes@[q].parent);
                        }
                    }
                }
                let ghost mid1 = *self;
                proof {
                    assert forall|q: int| 0 <= q < old_self.nodes@.len() && (#[trigger] self.nodes@[q]).parent != old_self.nodes@[q].parent
                        implies exists|m: int, d: nat| #![trigger up(old_self.nodes@, NodeId(q as usize), d), children@[m]]
                            0 <= m < i + 1 && up(old_self.nodes@, NodeId(q as usize), d) == Some(children@[m]) by {
                        if NodeId(q as usize) == children@[i as int] {
                            assert(up(old_self.nodes@, NodeId(q as usize), 0) == Some(children@[i as int]));
                        }
                    }
                }
                if fuel > 0 {
                    let ghost mid = *self;
                    proof {
                        if !old_self.on_cycle(x) {
                            lemma_child_off_cycle(mid.nodes@, old_self.nodes@, c, x);
                        }
                    }
                    self.free_subtree(c, fuel - 1);
                    proof {
                        assert forall|q: int| 0 <= q < old_self.nodes@.len() && (#[trigger] self.nodes@[q]).parent != old_self.nodes@[q].parent
                            implies exists|m: int, d: nat| #![trigger up(old_self.nodes@, NodeId(q as usize), d), children@[m]]
                                0 <= m < i + 1 && up(old_self.nodes@, NodeId(q as usize), d) == Some(children@[m]) by {
                            if self.nodes@[q].parent != mid.nodes@[q].parent {
                                assert(mid.below(NodeId(q as usize), c));
                                let d = choose|d: nat| #[trigger] up(mid.nodes@, NodeId(q as usize), d) == Some(c);
                                lemma_up_kept(mid.nodes@, old_self.nodes@, NodeId(q as usize), d);
                                assert(up(old_self.nodes@, NodeId(q as usize), d) == Some(children@[i as int]));
                            } else {
                                assert(mid.nodes@[q].parent != old_self.nodes@[q].parent);
                            }
                        }
                        if !old_self.on_cycle(x) {
                            assert forall|m: int, j: NodeId, k: nat| #![trigger up(old_self.nodes@, j, k), children@[m]]
                                0 <= m < i + 1 && j.0 < old_self.nodes@.len() && k < fuel && up(old_self.nodes@, j, k) == Some(children@[m])
                                implies self.nodes@[j.0 as int].freed by {
                                if m < i {
                                    assert(before.nodes@[j.0 as int].freed);
                                    assert(mid.nodes@[j.0 as int].freed);
                                } else {
                                    lemma_path_to_child(mid.nodes@, old_self.nodes@, x, children@, i as int, j, k);
                                    assert(up(mid.nodes@, j, k) == Some(c));
                                }
                            }
                        }
                        assert forall|q: int| old_self.free_list@.len() <= q < self.free_list@.len()
                            implies !old_self.nodes@[#[trigger] self.free_list@[q] as int].freed by {
                            if q < mid.free_list@.len() {
                                assert(self.free_list@.subrange(0, mid.free_list@.len() as int)[q] == self.free_list@[q]);
                                assert(self.free_list@[q] == mid.free_list@[q]);
                            } else {
                                let f = self.free_list@[q] as int;
                                assert(mid.free_list_ok());
                                assert(self.free_list_ok());
                                assert(f < old_self.nodes@.len());
                                if old_self.nodes@[f].freed {
                                    assert(before.nodes@[f].freed);
                                    assert(mid.nodes@[f].freed);
                                }
                            }
                        }
                        assert forall|j: int| 0 <= j < old_self.nodes@.len() && !old_self.nodes@[j].freed && (#[trigger] self.nodes@[j]).freed
                            implies self.free_list@.contains(j as usize) by {
                            if mid.nodes@[j].freed {
                                assert(before.nodes@[j].freed);
                                assert(before.free_list@.contains(j as usize));
                                let t = choose|t: int| 0 <= t < mid.free_list@.len() && mid.free_list@[t] == j as usize;
                                assert(self.free_list@.subrange(0, mid.free_list@.len() as int)[t] == self.free_list@[t]);
                            }
                        }
                        lemma_parents_kept_trans(self.nodes@, mid.nodes@, old_self.nodes@);
                        assert forall|j: int| 0 <= j < old_self.nodes@.len() && !old_self.nodes@[j].freed && (#[trigger] self.nodes@[j]).freed
                            implies old_self.below(NodeId(j as usize), x) by {
                            if !mid.nodes@[j].freed {
                                assert(mid.below(NodeId(j as usize), c));
                                let k = choose|k: nat| #[trigger] up(mid.nodes@, NodeId(j as usize), k) == Some(c);
                                lemma_up_kept(mid.nodes@, old_self.nodes@, NodeId(j as usize), k);
                                lemma_up_step(old_self.nodes@, NodeId(j as usize), k, c, x);
                            }
                        }
                        assert forall|j: int| 0 <= j < old_self.kids@.len() implies #[trigger] self.kids@[j].len() <= old_self.kids@[j].len() by {
                            assert(self.kids@[j].len() <= mid.kids@[j].len());
                        }
                        assert(self.free_list@.subrange(0, old_self.free_list@.len() as int)
                            =~= self.free_list@.subrange(0, mid.free_list@.len() as int).subrange(0, old_self.free_list@.len() as int));
                    }
                }
            }
            i += 1;
        }
        let ghost before = *self;
        self.detach_children(x);
        proof {
            assert forall|j: int| 0 <= j < old_self.kids@.len() implies #[trigger] self.kids@[j].len() <= old_self.kids@[j].len() by {
                assert(self.kids@[j].len() <= before.kids@[j].len());
            }
        }
        let ghost before2 = *self;
        self.free_leaf(x);
        proof {
            assert(self.free_list@.subrange(0, old_self.free_list@.len() as int)
                =~= old_self.free_list@);
            assert(parents_kept(self.nodes@, before2.nodes@));
            lemma_parents_kept_trans(self.nodes@, before2.nodes@, before.nodes@);
            lemma_parents_kept_trans(self.nodes@, before.nodes@, old_self.nodes@);
            assert(up(old_self.nodes@, x, 0) == Some(x));
            assert forall|j: int| 0 <= j < old_self.nodes@.len() && !old_self.nodes@[j].freed && (#[trigger] self.nodes@[j]).freed
                implies old_self.below(NodeId(j as usize), x) by {
                if j != x.0 {
                    assert(before2.nodes@[j].freed);
                    assert(before.nodes@[j].freed);
                }
            }
            assert forall|m: int| 0 <= m < children@.len() implies (#[trigger] children@[m]).0 < old_self.nodes@.len()
                && old_self.nodes@[children@[m].0 as int].parent == Some(x) by {
                assert(old_self.child_links_ok(x.0 as int, m));
            }
            assert forall|j: int| 0 <= j < old_self.nodes@.len() && !old_self.nodes@[j].freed && (#[trigger] self.nodes@[j]).freed
                implies self.free_list@.contains(j as usize) by {
                if j != x.0 || before2.nodes@[j].freed {
                    if j != x.0 {
                        assert(before2.nodes@[j].freed);
                    }
                    assert(before.nodes@[j].freed);
                    assert(before.free_list@.contains(j as usize));
                    let t = choose|t: int| 0 <= t < before2.free_list@.len() && before2.free_list@[t] == j as usize;
                    assert(self.free_list@.subrange(0, before2.free_list@.len() as int)[t] == self.free_list@[t]);
                } else {
                    assert(self.free_list@ == before2.free_list@.push(x.0));
                    assert(self.free_list@[before2.free_list@.len() as int] == j as usize);
                }
            }
            assert forall|q: int| 0 <= q < old_self.nodes@.len() && (#[trigger] self.nodes@[q]).parent != old_self.nodes@[q].parent
                implies old_self.below(NodeId(q as usize), x) by {
                if q == x.0 {
                    assert(before2.nodes@[q].parent is None);
                    assert(old_self.nodes@[q].parent is None);
                } else if before2.nodes@[q].parent != before.nodes@[q].parent {
                    assert(before.nodes@[q].parent == Some(x));
                    assert(old_self.nodes@[q].parent == Some(x));
                    assert(up(old_self.nodes@, NodeId(q as usize), 0) == Some(NodeId(q as usize)));
                    lemma_up_step(old_self.nodes@, NodeId(q as usize), 0, NodeId(q as usize), x);
                } else {
                    assert(self.nodes@[q] == before2.nodes@[q]);
                    assert(before.nodes@[q].parent != old_self.nodes@[q].parent);
                    let (m, d) = choose|m: int, d: nat| #![trigger up(old_self.nodes@, NodeId(q as usize), d), children@[m]]
                        0 <= m < children@.len() && up(old_self.nodes@, NodeId(q as usize), d) == Some(children@[m]);
                    lemma_up_step(old_self.nodes@, NodeId(q as usize), d, children@[m], x);
                }
            }
            if !old_self.on_cycle(x) {
                assert forall|j: NodeId, k: nat| j.0 < old_self.nodes@.len() && k <= fuel
                    && #[trigger] up(old_self.nodes@, j, k) == Some(x) implies self.nodes@[j.0 as int].freed by {
                    if k == 0 {
                        assert(j == x);
                    } else {
                        let c = up(old_self.nodes@, j, (k - 1) as nat).unwrap();
                        assert(up(old_self.nodes@, j, (k - 1) as nat) == Some(c));
                        assert(c.0 < old_self.nodes@.len() && old_self.nodes@[c.0 as int].parent == Some(x));
                        assert(old_self.node_links_ok(c.0 as int));
                        assert(NodeId(c.0 as usize) == c);
                        assert(children@.contains(c));
                        let m = choose|m: int| 0 <= m < children@.len() && children@[m] == c;
                        assert(before.nodes@[j.0 as int].freed);
                        if j.0 != x.0 {
                            assert(before2.nodes@[j.0 as int].freed);
                        }
                    }
                }
            }
        }
    }

    /// Removes a node and all its descendants, adding their slots to the free list.
    pub fn remove_and_free(&mut self, id: NodeId)
        requires
            old(self).wf(),
            old(self).valid(id),
        ensures
            final(self).wf(),
            final(self).nodes@.len() == old(self).nodes@.len(),
            final(self).nodes@[id.0 as int].freed,
            final(self).nodes@[id.0 as int].parent is None,
            old(self).nodes@[id.0 as int].parent matches Some(p) ==> {
                &&& !final(self).kids@[p.0 as int].contains(id)
                &&& final(self).kids@[p.0 as int].len() < old(self).kids@[p.0 as int].len()
            },
            final(self).kids_not_longer(*old(self)),
            old(self).free_list@.len() <= final(self).free_list@.len(),
            final(self).free_list@.subrange(0, old(self).free_list@.len() as int) == old(self).free_list@,
            final(self).root == old(self).root,
            match old(self).nodes@[id.0 as int].parent {
                Some(p) => final(self).child_list_recorded(old(self).mutation_observers@, p),
                None => final(self).mutation_observers == old(self).mutation_observers,
            },
            final(self).freed_only_below(*old(self), id),
            !old(self).on_cycle(id) ==> forall|j: NodeId, k: nat| j.0 < old(self).nodes@.len() && k <= old(self).nodes@.len()
                && #[trigger] up(old(self).nodes@, j, k) == Some(id) ==> final(self).nodes@[j.0 as int].freed,
            forall|j: int| 0 <= j < old(self).nodes@.len() && !old(self).nodes@[j].freed && (#[trigger] final(self).nodes@[j]).freed
                ==> (node_id_attr(old(self).nodes@[j]) matches Some(s) ==> !final(self).id_index@.contains_key(s)),
            forall|q: int| old(self).free_list@.len() <= q < final(self).free_list@.len()
                ==> !old(self).nodes@[#[trigger] final(self).free_list@[q] as int].freed,
            forall|j: int| 0 <= j < old(self).nodes@.len() && !old(self).nodes@[j].freed && (#[trigger] final(self).nodes@[j]).freed
                ==> final(self).free_list@.contains(j as usize),
    {
        let parent = self.nodes[id.0].parent;
        proof { assert(self.node_links_ok(id.0 as int)); }
        self.discard_node(id);
        match parent {
            Some(p) => self.record_child_list(p),
            None => {},
        }
    }

    /// Detaches `id` from its parent and frees it with its subtree, recording nothing.
    pub(crate) fn discard_node(&mut self, id: NodeId)
        requires
            old(self).wf(),
            old(self).valid(id),
        ensures
            final(self).wf(),
            final(self).nodes@.len() == old(self).nodes@.len(),
            final(self).nodes@[id.0 as int].freed,
            final(self).nodes@[id.0 as int].parent is None,
            old(self).nodes@[id.0 as int].parent matches Some(p) ==> {
                &&& !final(self).kids@[p.0 as int].contains(id)
                &&& final(self).kids@[p.0 as int].len() < old(self).kids@[p.0 as int].len()
            },
            final(self).kids_not_longer(*old(self)),
            old(self).free_list@.len() <= final(self).free_list@.len(),
            final(self).free_list@.subrange(0, old(self).free_list@.len() as int) == old(self).free_list@,
            final(self).root == old(self).root,
            final(self).mutation_observers == old(self).mutation_observers,
            parents_kept(final(self).nodes@, old(self).nodes@),
            final(self).freed_only_below(*old(self), id),
            forall|j: int| 0 <= j < old(self).nodes@.len() && old(self).nodes@[j].freed ==> (#[trigger] final(self).nodes@[j]).freed,
            forall|j: int| 0 <= j < old(self).nodes@.len() ==> (#[trigger] final(self).nodes@[j]).kind == old(self).nodes@[j].kind,
            final(self).id_index@.dom().subset_of(old(self).id_index@.dom()),
            forall|j: int| 0 <= j < old(self).nodes@.len() && !old(self).nodes@[j].freed && (#[trigger] final(self).nodes@[j]).freed
                ==> (node_id_attr(old(self).nodes@[j]) matches Some(s) ==> !final(self).id_index@.contains_key(s)),
            forall|q: int| old(self).free_list@.len() <= q < final(self).free_list@.len()
                ==> !old(self).nodes@[#[trigger] final(self).free_list@[q] as int].freed,
            forall|j: int| 0 <= j < old(self).nodes@.len() && !old(self).nodes@[j].freed && (#[trigger] final(self).nodes@[j]).freed
                ==> final(self).free_list@.contains(j as usize),
            forall|q: int| 0 <= q < old(self).nodes@.len() && (#[trigger] final(self).nodes@[q]).parent != old(self).nodes@[q].parent
                ==> old(self).below(NodeId(q as usize), id),
            !old(self).on_cycle(id) ==> forall|j: NodeId, k: nat| j.0 < old(self).nodes@.len() && k <= old(self).nodes@.len()
                && #[trigger] up(old(self).nodes@, j, k) == Some(id) ==> final(self).nodes@[j.0 as int].freed,
    {
        let ghost old_self = *self;
        match self.nodes[id.0].parent {
            Some(parent) => {
                proof {
                    assert(old_self.node_links_ok(id.0 as int));
                }
                self.detach_child(parent, id);
                proof {
                    assert(self.kids@[parent.0 as int] == old_self.kids@[parent.0 as int].remove(old_self.kids@[parent.0 as int].index_of(id)));
                    let ps = old_self.kids@[parent.0 as int];
                    assert(ps.contains(id));
                    let ix = ps.index_of(id);
                    assert(ps[ix] == id);
                    assert(old_self.node_links_ok(parent.0 as int));
                    assert forall|k: int| 0 <= k < ps.len() - 1 implies #[trigger] ps.remove(ix)[k] != id by {
                        if k < ix {
                            assert(ps.remove(ix)[k] == ps[k]);
                        } else {
                            assert(ps.remove(ix)[k] == ps[k + 1]);
                        }
                    }
                    assert(!self.kids@[parent.0 as int].contains(id));
                    assert forall|j: int| 0 <= j < old_self.kids@.len() implies #[trigger] self.kids@[j].len() <= old_self.kids@[j].len() by {
                        if j == parent.0 {
                        }
                    }
                }
            },
            None => {},
        }
        let ghost before = *self;
        self.free_subtree(id, self.nodes.len());
        proof {
            assert(parents_kept(before.nodes@, old_self.nodes@));
            lemma_parents_kept_trans(self.nodes@, before.nodes@, old_self.nodes@);
            assert forall|j: int| 0 <= j < old_self.nodes@.len() && !old_self.nodes@[j].freed && (#[trigger] self.nodes@[j]).freed
                implies old_self.below(NodeId(j as usize), id) by {
                assert(!before.nodes@[j].freed);
                assert(before.below(NodeId(j as usize), id));
                let k = choose|k: nat| #[trigger] up(before.nodes@, NodeId(j as usize), k) == Some(id);
                lemma_up_kept(before.nodes@, old_self.nodes@, NodeId(j as usize), k);
            }
            assert(up(old_self.nodes@, id, 0) == Some(id));
            assert forall|q: int| 0 <= q < old_self.nodes@.len() && (#[trigger] self.nodes@[q]).parent != old_self.nodes@[q].parent
                implies old_self.below(NodeId(q as usize), id) by {
                if self.nodes@[q].parent != before.nodes@[q].parent {
                    assert(before.below(NodeId(q as usize), id));
                    let k = choose|k: nat| #[trigger] up(before.nodes@, NodeId(q as usize), k) == Some(id);
                    lemma_up_kept(before.nodes@, old_self.nodes@, NodeId(q as usize), k);
                } else {
                    assert(q == id.0);
                    assert(NodeId(q as usize) == id);
                }
            }
            if !old_self.on_cycle(id) {
                assert(!before.on_cycle(id)) by {
                    if before.on_cycle(id) {
                        let d = choose|d: nat| d >= 1 && #[trigger] up(before.nodes@, id, d) == Some(id);
                        lemma_up_kept(before.nodes@, old_self.nodes@, id, d);
                        assert(old_self.on_cycle(id));
                    }
                }
                assert forall|j: NodeId, k: nat| j.0 < old_self.nodes@.len() && k <= old_self.nodes@.len()
                    && #[trigger] up(old_self.nodes@, j, k) == Some(id) implies self.nodes@[j.0 as int].freed by {
                    assert forall|t: nat| t < k && (#[trigger] up(old_self.nodes@, j, t)) is Some
                        && up(old_self.nodes@, j, t).unwrap().0 < old_self.nodes@.len()
                        implies before.nodes@[up(old_self.nodes@, j, t).unwrap().0 as int].parent
                            == old_self.nodes@[up(old_self.nodes@, j, t).unwrap().0 as int].parent by {
                        let n = up(old_self.nodes@, j, t).unwrap();
                        if n == id {
                            lemma_up_order(old_self.nodes@, j, t, id, k, id);
                            assert(old_self.on_cycle(id));
                        }
                    }
                    lemma_up_same(before.nodes@, old_self.nodes@, j, k);
                }
            }
            assert forall|j: int| 0 <= j < old_self.kids@.len() implies #[trigger] self.kids@[j].len() <= old_self.kids@[j].len() by {
                assert(self.kids@[j].len() <= before.kids@[j].len());
            }
            if let Some(p) = old_self.nodes@[id.0 as int].parent {
                assert(self.kids@[p.0 as int].len() <= before.kids@[p.0 as int].len());
                assert(self.node_links_ok(id.0 as int));
                if self.kids@[p.0 as int].contains(id) {
                    let k = choose|k: int| 0 <= k < self.kids@[p.0 as int].len() && self.kids@[p.0 as int][k] == id;
                    assert(self.child_links_ok(p.0 as int, k));
                }
            }
        }
    }
}


/// Two node payloads hold the same data.
pub open spec fn same_kind(a: NodeKind, b: NodeKind) -> bool {
    match (a, b) {
        (NodeKind::Document, NodeKind::Document) => true,
        (NodeKind::DocumentFragment, NodeKind::DocumentFragment) => true,
        (NodeKind::Text(x), NodeKind::Text(y)) => x@ == y@,
        (NodeKind::Comment(x), NodeKind::Comment(y)) => x@ == y@,
        (NodeKind::Element(x), NodeKind::Element(y)) => {
            &&& x.tag@ == y.tag@
            &&& attrs_view(x.attributes@) == attrs_view(y.attributes@)
            &&& x.id.is_some() == y.id.is_some()
            &&& (x.id.is_some() ==> x.id.unwrap()@ == y.id.unwrap()@)
            &&& strs_view(x.class_list@) == strs_view(y.class_list@)
            &&& x.self_closing == y.self_closing
        },
        _ => false,
    }
}

/// A copy of a node payload.
pub fn clone_kind(k: &NodeKind) -> (r: NodeKind)
    ensures
        same_kind(r, *k),
{
    match k {
        NodeKind::Document => NodeKind::Document,
        NodeKind::DocumentFragment => NodeKind::DocumentFragment,
        NodeKind::Text(s) => NodeKind::Text(s.clone()),
        NodeKind::Comment(s) => NodeKind::Comment(s.clone()),
        NodeKind::Element(el) => {
            let mut attrs: Vec<(String, String)> = Vec::new();
            let mut i: usize = 0;
            while i < el.attributes.len()
                invariant
                    i <= el.attributes@.len(),
                    attrs@ == el.attributes@.subrange(0, i as int),
                decreases el.attributes@.len() - i,
            {
                let kv = (el.attributes[i].0.clone(), el.attributes[i].1.clone());
                attrs.push(kv);
                i += 1;
                proof { assert(attrs@ =~= el.attributes@.subrange(0, i as int)); }
            }
            let mut class_list: Vec<String> = Vec::new();
            let mut j: usize = 0;
            while j < el.class_list.len()
                invariant
                    j <= el.class_list@.len(),
                    class_list@ == el.class_list@.subrange(0, j as int),
                decreases el.class_list@.len() - j,
            {
                class_list.push(el.class_list[j].clone());
                j += 1;
                proof { assert(class_list@ =~= el.class_list@.subrange(0, j as int)); }
            }
            proof {
                assert(attrs@ =~= el.attributes@);
                assert(class_list@ =~= el.class_list@);
            }
            let id = match &el.id {
                Some(s) => Some(s.clone()),
                None => None,
            };
            NodeKind::Element(ElementData {
                tag: el.tag.clone(),
                attributes: attrs,
                id,
                class_list,
                self_closing: el.self_closing,
            })
        },
    }
}

impl Document {
    /// `self` extends `before`: every node live in `before` keeps its payload, its
    /// children and (when it had none) its lack of a parent.
    pub open spec fn keeps_live(&self, before: Document) -> bool {
        &&& before.nodes@.len() <= self.nodes@.len()
        &&& forall|n: NodeId| #[trigger] before.live(n) ==> {
            &&& self.live(n)
            &&& self.kids@[n.0 as int] == before.kids@[n.0 as int]
            &&& same_payload(self.nodes@[n.0 as int], before.nodes@[n.0 as int])
            &&& (before.nodes@[n.0 as int].parent is None ==> self.nodes@[n.0 as int].parent is None)
        }
    }

    /// `id` and its descendants, down to `fuel` levels, are live.
    pub open spec fn live_tree(&self, id: NodeId, fuel: nat) -> bool
        decreases fuel,
    {
        &&& self.live(id)
        &&& fuel > 0 ==> forall|k: int| #![trigger self.kids@[id.0 as int][k]] 0 <= k < self.kids@[id.0 as int].len()
            ==> self.live_tree(self.kids@[id.0 as int][k], (fuel - 1) as nat)
    }

    /// Node `r` of `self` is a copy of node `id` of `s` down to `fuel` levels: the
    /// same payload, as many children, each a copy of the matching child, and every
    /// node of the copy new since `base`.
    pub open spec fn copy_of(&self, base: Document, r: NodeId, s: Document, id: NodeId, fuel: nat) -> bool
        decreases fuel,
    {
        &&& self.live(r)
        &&& !base.live(r)
        &&& same_kind(self.nodes@[r.0 as int].kind, s.nodes@[id.0 as int].kind)
        &&& self.kids@[r.0 as int].len() == (if fuel > 0 { s.kids@[id.0 as int].len() } else { 0 })
        &&& fuel > 0 ==> forall|k: int| #![trigger s.kids@[id.0 as int][k]] 0 <= k < s.kids@[id.0 as int].len()
            ==> self.copy_of(base, self.kids@[r.0 as int][k], s, s.kids@[id.0 as int][k], (fuel - 1) as nat)
    }

    /// A copy stays one while the nodes that were live keep their payload and
    /// children (all but `p`, which is older than the copy), and against any older base.
    pub proof fn lemma_copy_kept(d1: Document, d2: Document, b1: Document, b2: Document, r: NodeId, s: Document,
        id: NodeId, fuel: nat, p: NodeId)
        requires
            d1.copy_of(b1, r, s, id, fuel),
            b1.live(p),
            forall|n: NodeId| #[trigger] d1.live(n) && n != p ==> d2.live(n) && d2.kids@[n.0 as int] == d1.kids@[n.0 as int]
                && d2.nodes@[n.0 as int].kind == d1.nodes@[n.0 as int].kind,
            forall|n: NodeId| #[trigger] b2.live(n) ==> b1.live(n),
        ensures
            d2.copy_of(b2, r, s, id, fuel),
        decreases fuel,
    {
        assert(r != p);
        assert(d1.live(r));
        if fuel > 0 {
            assert forall|k: int| #![trigger s.kids@[id.0 as int][k]] 0 <= k < s.kids@[id.0 as int].len()
                implies d2.copy_of(b2, d2.kids@[r.0 as int][k], s, s.kids@[id.0 as int][k], (fuel - 1) as nat) by {
                assert(d1.copy_of(b1, d1.kids@[r.0 as int][k], s, s.kids@[id.0 as int][k], (fuel - 1) as nat));
                Document::lemma_copy_kept(d1, d2, b1, b2, d1.kids@[r.0 as int][k], s, s.kids@[id.0 as int][k], (fuel - 1) as nat, p);
            }
        }
    }

    /// A copy of a live tree of `s1` is one of the same tree in `s2`, when the live
    /// nodes of `s2` kept their payload and children in `s1`.
    pub proof fn lemma_copy_source(d: Document, b: Document, r: NodeId, s1: Document, s2: Document, id: NodeId, fuel: nat)
        requires
            d.copy_of(b, r, s1, id, fuel),
            s2.live_tree(id, fuel),
            forall|n: NodeId| #[trigger] s2.live(n) ==> s1.kids@[n.0 as int] == s2.kids@[n.0 as int]
                && s1.nodes@[n.0 as int].kind == s2.nodes@[n.0 as int].kind,
        ensures
            d.copy_of(b, r, s2, id, fuel),
        decreases fuel,
    {
        assert(s2.live(id));
        if fuel > 0 {
            assert forall|k: int| #![trigger s2.kids@[id.0 as int][k]] 0 <= k < s2.kids@[id.0 as int].len()
                implies d.copy_of(b, d.kids@[r.0 as int][k], s2, s2.kids@[id.0 as int][k], (fuel - 1) as nat) by {
                assert(s2.live_tree(s2.kids@[id.0 as int][k], (fuel - 1) as nat));
                assert(d.copy_of(b, d.kids@[r.0 as int][k], s1, s1.kids@[id.0 as int][k], (fuel - 1) as nat));
                Document::lemma_copy_source(d, b, d.kids@[r.0 as int][k], s1, s2, s2.kids@[id.0 as int][k], (fuel - 1) as nat);
            }
        }
    }

    /// A live tree stays live where the live nodes keep their children.
    pub proof fn lemma_live_tree_kept(s1: Document, s2: Document, id: NodeId, fuel: nat)
        requires
            s2.live_tree(id, fuel),
            forall|n: NodeId| #[trigger] s2.live(n) ==> s1.live(n) && s1.kids@[n.0 as int] == s2.kids@[n.0 as int],
        ensures
            s1.live_tree(id, fuel),
        decreases fuel,
    {
        if fuel > 0 {
            assert forall|k: int| #![trigger s1.kids@[id.0 as int][k]] 0 <= k < s1.kids@[id.0 as int].len()
                implies s1.live_tree(s1.kids@[id.0 as int][k], (fuel - 1) as nat) by {
                assert(s2.live_tree(s2.kids@[id.0 as int][k], (fuel - 1) as nat));
                Document::lemma_live_tree_kept(s1, s2, s2.kids@[id.0 as int][k], (fuel - 1) as nat);
            }
        }
    }

    /// Appending a detached node leaves every other parentless node parentless.
    pub proof fn lemma_append_keeps_orphan(mid: Document, after: Document, parent: NodeId, child: NodeId, m: NodeId)
        requires
            mid.wf(),
            after.wf(),
            mid.valid(m),
            mid.valid(parent),
            mid.nodes@[m.0 as int].parent is None,
            m != child,
            after.kids@ == kids_appended(mid.kids@, None, parent, child),
            after.nodes@.len() == mid.nodes@.len(),
        ensures
            after.nodes@[m.0 as int].parent is None,
    {
        if let Some(p) = after.nodes@[m.0 as int].parent {
            assert(after.node_links_ok(m.0 as int));
            let ks = after.kids@[p.0 as int];
            assert(ks.contains(m));
            let k = choose|k: int| 0 <= k < ks.len() && ks[k] == m;
            if p != parent {
                assert(ks == mid.kids@[p.0 as int]);
                assert(mid.child_links_ok(p.0 as int, k));
            } else if k < mid.kids@[parent.0 as int].len() {
                assert(ks[k] == mid.kids@[parent.0 as int][k]);
                assert(mid.child_links_ok(parent.0 as int, k));
            }
        }
    }

    /// Clones `id` (and, when `deep`, its descendants down to `fuel` levels).
    fn clone_rec(&mut self, id: NodeId, deep: bool, fuel: usize) -> (r: NodeId)
        requires
            old(self).wf(),
            old(self).valid(id),
        ensures
            final(self).wf(),
            final(self).keeps_live(*old(self)),
            final(self).live(r),
            !old(self).live(r),
            same_kind(final(self).nodes@[r.0 as int].kind, old(self).nodes@[id.0 as int].kind),
            final(self).nodes@[r.0 as int].parent is None,
            final(self).kids@[r.0 as int].len() == (if deep && fuel > 0 { old(self).kids@[id.0 as int].len() } else { 0 }),
            final(self).root == old(self).root,
            final(self).mutation_observers == old(self).mutation_observers,
            (!deep || old(self).live_tree(id, fuel as nat))
                ==> final(self).copy_of(*old(self), r, *old(self), id, if deep { fuel as nat } else { 0 }),
        decreases fuel,
    {
        let ghost old_self = *self;
        proof { self.lemma_kids_valid(id); }
        let children = self.children(id);
        let kind = clone_kind(&self.nodes[id.0].kind);
        let new_id = self.alloc_node(NodeData::new(kind));
        proof {
            assert(self.node_links_ok(new_id.0 as int));
            if old_self.free_list@.len() > 0 {
                let q = old_self.free_list@.len() - 1;
                assert(old_self.nodes@[old_self.free_list@[q] as int].freed);
            }
            assert forall|m: NodeId| #[trigger] old_self.live(m) implies {
                &&& self.live(m)
                &&& self.kids@[m.0 as int] == old_self.kids@[m.0 as int]
                &&& same_payload(self.nodes@[m.0 as int], old_self.nodes@[m.0 as int])
                &&& (old_self.nodes@[m.0 as int].parent is None ==> self.nodes@[m.0 as int].parent is None)
            } by {
                assert(m.0 != new_id.0);
            }
        }
        let ghost b0 = *self;
        if deep && fuel > 0 {
            let mut i: usize = 0;
            while i < children.len()
                invariant
                    b0.live(new_id),
                    !old_self.live(new_id),
                    forall|n: NodeId| #[trigger] old_self.live(n) ==> b0.live(n),
                    forall|n: NodeId| #[trigger] b0.live(n) ==> self.live(n),
                    old_self.live_tree(id, fuel as nat) ==> forall|k: int| #![trigger children@[k]] 0 <= k < i
                        ==> self.copy_of(b0, self.kids@[new_id.0 as int][k], old_self, children@[k], (fuel - 1) as nat),
                    old_self.wf(),
                    old_self.valid(id),
                    self.wf(),
                    self.keeps_live(old_self),
                    children@ == old_self.kids@[id.0 as int],
                    forall|k: int| 0 <= k < children@.len() ==> old_self.valid(#[trigger] children@[k]),
                    i <= children@.len(),
                    fuel > 0,
                    self.live(new_id),
                    !old_self.live(new_id),
                    new_id.0 < self.nodes@.len(),
                    same_kind(self.nodes@[new_id.0 as int].kind, old_self.nodes@[id.0 as int].kind),
                    self.nodes@[new_id.0 as int].parent is None,
                    self.kids@[new_id.0 as int].len() == i,
                    self.root == old_self.root,
                    self.mutation_observers == old_self.mutation_observers,
                decreases children@.len() - i,
            {
                let c = children[i];
                let ghost before = *self;
                proof {
                    if old_self.live_tree(id, fuel as nat) {
                        assert(children@[i as int] == old_self.kids@[id.0 as int][i as int]);
                        assert(old_self.live_tree(c, (fuel - 1) as nat));
                        Document::lemma_live_tree_kept(before, old_self, c, (fuel - 1) as nat);
                    }
                }
                let cloned = self.clone_rec(c, true, fuel - 1);
                let ghost mid = *self;
                proof {
                    assert(before.live(new_id));
                    assert(mid.kids@[new_id.0 as int] == before.kids@[new_id.0 as int]);
                    assert(cloned != new_id);
                }
                self.attach_child(new_id, cloned);
                proof {
                    assert(self.kids@ == kids_appended(mid.kids@, None, new_id, cloned));
                    assert(same_payload(self.nodes@[new_id.0 as int], mid.nodes@[new_id.0 as int]));
                    assert(self.node_links_ok(new_id.0 as int));
                    assert forall|m: NodeId| #[trigger] old_self.live(m) implies {
                        &&& self.live(m)
                        &&& self.kids@[m.0 as int] == old_self.kids@[m.0 as int]
                        &&& same_payload(self.nodes@[m.0 as int], old_self.nodes@[m.0 as int])
                        &&& (old_self.nodes@[m.0 as int].parent is None ==> self.nodes@[m.0 as int].parent is None)
                    } by {
                        if old_self.nodes@[m.0 as int].parent is None {
                            assert(before.live(m));
                            assert(mid.live(m));
                            Document::lemma_append_keeps_orphan(mid, *self, new_id, cloned, m);
                        }
                        assert(before.live(m));
                        assert(mid.live(m));
                        assert(m.0 != new_id.0);
                        assert(same_payload(self.nodes@[m.0 as int], mid.nodes@[m.0 as int]));
                    }
                    Document::lemma_append_keeps_orphan(mid, *self, new_id, cloned, new_id);
                    assert forall|m: NodeId| #[trigger] old_self.live(m) && old_self.nodes@[m.0 as int].parent is None
                        implies self.nodes@[m.0 as int].parent is None by {
                        assert(before.live(m));
                        assert(mid.live(m));
                        Document::lemma_append_keeps_orphan(mid, *self, new_id, cloned, m);
                    }
                }
                proof {
                    assert(self.kids@[new_id.0 as int] == before.kids@[new_id.0 as int].push(cloned));
                    assert forall|n: NodeId| #[trigger] mid.live(n) && n != new_id implies self.live(n)
                        && self.kids@[n.0 as int] == mid.kids@[n.0 as int]
                        && self.nodes@[n.0 as int].kind == mid.nodes@[n.0 as int].kind by {
                        assert(same_payload(self.nodes@[n.0 as int], mid.nodes@[n.0 as int]));
                    }
                    assert forall|n: NodeId| #[trigger] before.live(n) && n != new_id implies self.live(n)
                        && self.kids@[n.0 as int] == before.kids@[n.0 as int]
                        && self.nodes@[n.0 as int].kind == before.nodes@[n.0 as int].kind by {
                        assert(mid.live(n));
                        assert(same_payload(mid.nodes@[n.0 as int], before.nodes@[n.0 as int]));
                    }
                    assert forall|n: NodeId| #[trigger] b0.live(n) implies self.live(n) by {
                        assert(before.live(n));
                        if n != new_id {
                            assert(mid.live(n));
                        }
                    }
                    if old_self.live_tree(id, fuel as nat) {
                        assert forall|n: NodeId| #[trigger] old_self.live(n) implies before.kids@[n.0 as int] == old_self.kids@[n.0 as int]
                            && before.nodes@[n.0 as int].kind == old_self.nodes@[n.0 as int].kind by {
                            assert(same_payload(before.nodes@[n.0 as int], old_self.nodes@[n.0 as int]));
                        }
                        Document::lemma_copy_source(mid, before, cloned, before, old_self, c, (fuel - 1) as nat);
                        Document::lemma_copy_kept(mid, *self, before, b0, cloned, old_self, c, (fuel - 1) as nat, new_id);
                        assert forall|k: int| #![trigger children@[k]] 0 <= k < i + 1
                            implies self.copy_of(b0, self.kids@[new_id.0 as int][k], old_self, children@[k], (fuel - 1) as nat) by {
                            if k < i {
                                assert(before.copy_of(b0, before.kids@[new_id.0 as int][k], old_self, children@[k], (fuel - 1) as nat));
                                Document::lemma_copy_kept(before, *self, b0, b0, before.kids@[new_id.0 as int][k], old_self,
                                    children@[k], (fuel - 1) as nat, new_id);
                                assert(self.kids@[new_id.0 as int][k] == before.kids@[new_id.0 as int][k]);
                            } else {
                                assert(self.kids@[new_id.0 as int][k] == cloned);
                            }
                        }
                    }
                }
                i += 1;
            }
        }
        proof {
            let f: nat = if deep { fuel as nat } else { 0 };
            if !deep || old_self.live_tree(id, fuel as nat) {
                if deep && fuel > 0 {
                    assert forall|k: int| #![trigger old_self.kids@[id.0 as int][k]] 0 <= k < old_self.kids@[id.0 as int].len()
                        implies self.copy_of(old_self, self.kids@[new_id.0 as int][k], old_self, old_self.kids@[id.0 as int][k], (f - 1) as nat) by {
                        assert(children@[k] == old_self.kids@[id.0 as int][k]);
                        assert(self.copy_of(b0, self.kids@[new_id.0 as int][k], old_self, children@[k], (fuel - 1) as nat));
                        Document::lemma_copy_kept(*self, *self, b0, old_self, self.kids@[new_id.0 as int][k], old_self,
                            children@[k], (fuel - 1) as nat, new_id);
                    }
                }
                assert(self.copy_of(old_self, new_id, old_self, id, f));
            }
        }
        new_id
    }

    /// Deep or shallow clone of a node. Returns the new node's id; the copy is
    /// detached and every node that was live before is left as it was.
    pub fn clone_node(&mut self, id: NodeId, deep: bool) -> (r: NodeId)
        requires
            old(self).wf(),
            old(self).valid(id),
        ensures
            final(self).wf(),
            final(self).keeps_live(*old(self)),
            final(self).live(r),
            !old(self).live(r),
            same_kind(final(self).nodes@[r.0 as int].kind, old(self).nodes@[id.0 as int].kind),
            final(self).nodes@[r.0 as int].parent is None,
            final(self).kids@[r.0 as int].len() == (if deep { old(self).kids@[id.0 as int].len() } else { 0 }),
            final(self).root == old(self).root,
            final(self).mutation_observers == old(self).mutation_observers,
            !deep ==> final(self).copy_of(*old(self), r, *old(self), id, 0),
            deep && old(self).live_tree(id, old(self).nodes@.len() as nat)
                ==> final(self).copy_of(*old(self), r, *old(self), id, old(self).nodes@.len() as nat),
    {
        let n = self.nodes.len();
        proof { assert(n > 0) by { assert(self.root.0 < self.nodes@.len()); } }
        self.clone_rec(id, deep, n)
    }

    /// Removes all children (freeing them with their subtrees) and sets the text
    /// content to a single text node (no text node for empty text). A node that is
    /// already freed gets no text node: a freed slot holds no children.
    pub fn set_text_content(&mut self, id: NodeId, text: &str)
        requires
            old(self).wf(),
            old(self).valid(id),
        ensures
            final(self).wf(),
            final(self).root == old(self).root,
            final(self).child_list_recorded(old(self).mutation_observers@, id),
            final(self).freed_only_below(*old(self), id),
            old(self).live(id) && !old(self).on_cycle(id) ==> final(self).live(id),
            old(self).live(id) && !old(self).on_cycle(id) && old(self).nodes@[id.0 as int].kind is Element
                ==> final(self).text_content_of(id) == text@,
            !old(self).on_cycle(id) ==> forall|j: NodeId, k: nat| j.0 < old(self).nodes@.len() && 1 <= k <= old(self).nodes@.len()
                && #[trigger] up(old(self).nodes@, j, k) == Some(id)
                ==> final(self).nodes@[j.0 as int].freed || (text@.len() > 0 && final(self).kids@[id.0 as int] == seq![j]),
            !final(self).nodes@[id.0 as int].freed ==> {
                &&& text@.len() == 0 ==> final(self).kids@[id.0 as int].len() == 0
                &&& text@.len() > 0 ==> {
                    &&& final(self).kids@[id.0 as int].len() == 1
                    &&& final(self).nodes@[final(self).kids@[id.0 as int][0].0 as int].kind matches NodeKind::Text(t) && t@ == text@
                }
            },
    {
        let ghost old_self = *self;
        let ghost mut disc: Seq<NodeId> = Seq::empty();
        loop
            invariant
                self.wf(),
                self.valid(id),
                self.root == old(self).root,
                self.mutation_observers == old(self).mutation_observers,
                old_self == *old(self),
                parents_kept(self.nodes@, old_self.nodes@),
                forall|j: int| 0 <= j < old_self.nodes@.len() && !old_self.nodes@[j].freed && (#[trigger] self.nodes@[j]).freed
                    ==> exists|k: nat| k >= 1 && #[trigger] up(old_self.nodes@, NodeId(j as usize), k) == Some(id),
                self.nodes@.len() == old_self.nodes@.len(),
                self.nodes@[id.0 as int].kind == old_self.nodes@[id.0 as int].kind,
                disc.no_duplicates(),
                forall|m: int| 0 <= m < disc.len() ==> (#[trigger] disc[m]).0 < old_self.nodes@.len()
                    && old_self.nodes@[disc[m].0 as int].parent == Some(id) && self.nodes@[disc[m].0 as int].parent is None,
                forall|q: int| 0 <= q < old_self.nodes@.len() && (#[trigger] self.nodes@[q]).parent != old_self.nodes@[q].parent
                    ==> exists|m: int, d: nat| #![trigger up(old_self.nodes@, NodeId(q as usize), d), disc[m]]
                        0 <= m < disc.len() && up(old_self.nodes@, NodeId(q as usize), d) == Some(disc[m]),
                !old_self.on_cycle(id) ==> forall|m: int, j: NodeId, k: nat| #![trigger up(old_self.nodes@, j, k), disc[m]]
                    0 <= m < disc.len() && j.0 < old_self.nodes@.len() && k <= old_self.nodes@.len()
                    && up(old_self.nodes@, j, k) == Some(disc[m]) ==> self.nodes@[j.0 as int].freed,
            ensures
                self.kids@[id.0 as int].len() == 0,
            decreases self.kids@[id.0 as int].len(),
        {
            let first = self.first_child(id);
            match first {
                None => {
                    break;
                },
                Some(c) => {
                    proof {
                        assert(self.child_links_ok(id.0 as int, 0));
                        assert(self.kids@[id.0 as int][0] == c);
                    }
                    let ghost before = *self;
                    let ghost cs = disc.push(c);
                    proof {
                        assert(before.nodes@[c.0 as int].parent == Some(id));
                        assert(old_self.nodes@[c.0 as int].parent == Some(id));
                        assert(!disc.contains(c));
                        assert(cs.no_duplicates()) by {
                            assert forall|a: int, b: int| 0 <= a < b < cs.len() implies cs[a] != cs[b] by {
                                if b == disc.len() {
                                    assert(disc[a] == cs[a]);
                                }
                            }
                        }
                        assert forall|m: int| 0 <= m < cs.len() implies (#[trigger] cs[m]).0 < old_self.nodes@.len()
                            && old_self.nodes@[cs[m].0 as int].parent == Some(id) by {
                            if m < disc.len() {
                                assert(cs[m] == disc[m]);
                            }
                        }
                        assert forall|q: int| 0 <= q < old_self.nodes@.len() && (#[trigger] before.nodes@[q]).parent != old_self.nodes@[q].parent
                            implies NodeId(q as usize) == cs[disc.len() as int] || exists|m: int, d: nat| #![trigger up(old_self.nodes@, NodeId(q as usize), d), cs[m]]
                                0 <= m < disc.len() && up(old_self.nodes@, NodeId(q as usize), d) == Some(cs[m]) by {
                            let (m, d) = choose|m: int, d: nat| #![trigger up(old_self.nodes@, NodeId(q as usize), d), disc[m]]
                                0 <= m < disc.len() && up(old_self.nodes@, NodeId(q as usize), d) == Some(disc[m]);
                            assert(cs[m] == disc[m]);
                        }
                        if !old_self.on_cycle(id) {
                            lemma_child_off_cycle(before.nodes@, old_self.nodes@, c, id);
                        }
                    }
                    self.discard_node(c);
                    proof {
                        lemma_parents_kept_trans(self.nodes@, before.nodes@, old_self.nodes@);
                        if !old_self.on_cycle(id) {
                            assert forall|m: int, j: NodeId, k: nat| #![trigger up(old_self.nodes@, j, k), cs[m]]
                                0 <= m < cs.len() && j.0 < old_self.nodes@.len() && k <= old_self.nodes@.len()
                                && up(old_self.nodes@, j, k) == Some(cs[m]) implies self.nodes@[j.0 as int].freed by {
                                if m < disc.len() {
                                    assert(cs[m] == disc[m]);
                                    assert(before.nodes@[j.0 as int].freed);
                                } else {
                                    lemma_path_to_child(before.nodes@, old_self.nodes@, id, cs, disc.len() as int, j, k);
                                }
                            }
                        }
                        assert forall|q: int| 0 <= q < old_self.nodes@.len() && (#[trigger] self.nodes@[q]).parent != old_self.nodes@[q].parent
                            implies exists|m: int, d: nat| #![trigger up(old_self.nodes@, NodeId(q as usize), d), cs[m]]
                                0 <= m < cs.len() && up(old_self.nodes@, NodeId(q as usize), d) == Some(cs[m]) by {
                            if self.nodes@[q].parent != before.nodes@[q].parent {
                                assert(before.below(NodeId(q as usize), c));
                                let d = choose|d: nat| #[trigger] up(before.nodes@, NodeId(q as usize), d) == Some(c);
                                lemma_up_kept(before.nodes@, old_self.nodes@, NodeId(q as usize), d);
                                assert(cs[disc.len() as int] == c);
                            } else {
                                let (m, d) = choose|m: int, d: nat| #![trigger up(old_self.nodes@, NodeId(q as usize), d), disc[m]]
                                    0 <= m < disc.len() && up(old_self.nodes@, NodeId(q as usize), d) == Some(disc[m]);
                                assert(cs[m] == disc[m]);
                            }
                        }
                        assert forall|m: int| 0 <= m < cs.len() implies (#[trigger] cs[m]).0 < old_self.nodes@.len()
                            && old_self.nodes@[cs[m].0 as int].parent == Some(id) && self.nodes@[cs[m].0 as int].parent is None by {
                            if m < disc.len() {
                                assert(cs[m] == disc[m]);
                                assert(before.nodes@[disc[m].0 as int].parent is None);
                            }
                        }
                        assert forall|j: int| 0 <= j < old_self.nodes@.len() && !old_self.nodes@[j].freed && (#[trigger] self.nodes@[j]).freed
                            implies exists|k: nat| k >= 1 && #[trigger] up(old_self.nodes@, NodeId(j as usize), k) == Some(id) by {
                            if !before.nodes@[j].freed {
                                assert(before.below(NodeId(j as usize), c));
                                let k = choose|k: nat| #[trigger] up(before.nodes@, NodeId(j as usize), k) == Some(c);
                                lemma_up_kept(before.nodes@, old_self.nodes@, NodeId(j as usize), k);
                                lemma_up_step(old_self.nodes@, NodeId(j as usize), k, c, id);
                                assert(up(old_self.nodes@, NodeId(j as usize), k + 1) == Some(id));
                            }
                        }
                        disc = cs;
                    }
                },
            }
        }
        proof {
            assert forall|j: int| 0 <= j < old_self.nodes@.len() && !old_self.nodes@[j].freed && (#[trigger] self.nodes@[j]).freed
                implies old_self.below(NodeId(j as usize), id) by {
                let k = choose|k: nat| k >= 1 && #[trigger] up(old_self.nodes@, NodeId(j as usize), k) == Some(id);
            }
            if old_self.live(id) && !old_self.on_cycle(id) && self.nodes@[id.0 as int].freed {
                assert(NodeId(id.0 as usize) == id);
                let k = choose|k: nat| k >= 1 && #[trigger] up(old_self.nodes@, NodeId(id.0 as usize), k) == Some(id);
                assert(old_self.on_cycle(id));
            }
            if !old_self.on_cycle(id) {
                assert forall|j: NodeId, k: nat| j.0 < old_self.nodes@.len() && 1 <= k <= old_self.nodes@.len()
                    && #[trigger] up(old_self.nodes@, j, k) == Some(id) implies self.nodes@[j.0 as int].freed by {
                    let c0 = up(old_self.nodes@, j, (k - 1) as nat).unwrap();
                    assert(up(old_self.nodes@, j, (k - 1) as nat) == Some(c0));
                    assert(c0.0 < old_self.nodes@.len() && old_self.nodes@[c0.0 as int].parent == Some(id));
                    if self.nodes@[c0.0 as int].parent == Some(id) {
                        assert(self.node_links_ok(c0.0 as int));
                        assert(NodeId(c0.0 as usize) == c0);
                        assert(self.kids@[id.0 as int].contains(c0));
                    }
                    assert(NodeId(c0.0 as usize) == c0);
                    let (m, d) = choose|m: int, d: nat| #![trigger up(old_self.nodes@, NodeId(c0.0 as usize), d), disc[m]]
                        0 <= m < disc.len() && up(old_self.nodes@, NodeId(c0.0 as usize), d) == Some(disc[m]);
                    if c0 != disc[m] {
                        lemma_sibling_cycle(old_self.nodes@, c0, disc[m], id, d);
                        assert(old_self.on_cycle(id));
                    }
                    assert(up(old_self.nodes@, j, (k - 1) as nat) == Some(disc[m]));
                }
            }
        }
        let ghost cleared = *self;
        if !text.is_empty() && !self.nodes[id.0].freed {
            let txt = self.create_text(text);
            proof {
                assert(self.kids@[id.0 as int].len() == 0);
            }
            self.attach_child(id, txt);
            proof {
                assert(self.kids@[id.0 as int] =~= seq![txt]);
            }
        }
        proof {
            assert(self.nodes@[id.0 as int].freed == cleared.nodes@[id.0 as int].freed);
            assert(self.nodes@[id.0 as int].kind == cleared.nodes@[id.0 as int].kind);
            if old_self.live(id) && !old_self.on_cycle(id) && old_self.nodes@[id.0 as int].kind is Element {
                let n = self.nodes@.len() as nat;
                assert(n > 0);
                let cs = self.kids@[id.0 as int];
                assert(self.text_content_of(id) == texts_of(self.nodes@, self.kids@, cs, (n - 1) as nat));
                if text@.len() > 0 {
                    assert(cs.drop_last() =~= Seq::<NodeId>::empty());
                    assert(texts_of(self.nodes@, self.kids@, cs.drop_last(), (n - 1) as nat) == Seq::<char>::empty());
                    assert(Seq::<char>::empty() + text_of(self.nodes@, self.kids@, cs.last(), (n - 1) as nat) =~= text@);
                } else {
                    assert(cs.len() == 0);
                }
            }
            if !old_self.on_cycle(id) {
                assert forall|j: NodeId, k: nat| j.0 < old_self.nodes@.len() && 1 <= k <= old_self.nodes@.len()
                    && #[trigger] up(old_self.nodes@, j, k) == Some(id)
                    implies self.nodes@[j.0 as int].freed || (text@.len() > 0 && self.kids@[id.0 as int] == seq![j]) by {
                    assert(cleared.nodes@[j.0 as int].freed);
                }
            }
            assert forall|j: int| 0 <= j < old_self.nodes@.len() && !old_self.nodes@[j].freed && (#[trigger] self.nodes@[j]).freed
                implies old_self.below(NodeId(j as usize), id) by {
                assert(cleared.nodes@[j].freed);
            }
        }
        self.record_child_list(id);
    }
}

} // verus!
