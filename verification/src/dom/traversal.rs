//! Tree traversal: children, descendants (pre-order), ancestors.

use vstd::prelude::*;
use super::{Document, opt_first, opt_last, opt_at};
use super::node::{NodeId, NodeData};

verus! {

/// Pre-order listing of the subtrees rooted at `cs` (in order), descending at most
/// `fuel` further levels below `cs`.
pub open spec fn dfs(kids: Seq<Seq<NodeId>>, cs: Seq<NodeId>, fuel: nat) -> Seq<NodeId>
    decreases fuel, cs.len(),
{
    if cs.len() == 0 {
        Seq::empty()
    } else {
        let c = cs.last();
        let sub = if fuel == 0 { Seq::<NodeId>::empty() } else { dfs(kids, kids[c.0 as int], (fuel - 1) as nat) };
        dfs(kids, cs.drop_last(), fuel) + seq![c] + sub
    }
}

/// The chain of parents above `id`, nearest first, following at most `fuel` links.
pub open spec fn ancestor_chain(nodes: Seq<NodeData>, id: NodeId, fuel: nat) -> Seq<NodeId>
    decreases fuel,
{
    if fuel == 0 {
        Seq::empty()
    } else {
        match nodes[id.0 as int].parent {
            None => Seq::empty(),
            Some(p) => seq![p] + ancestor_chain(nodes, p, (fuel - 1) as nat),
        }
    }
}

impl Document {
    /// All descendants of `id` in pre-order (the whole subtree whenever the tree is acyclic).
    pub open spec fn descendants_of(&self, id: NodeId) -> Seq<NodeId> {
        dfs(self.kids@, self.kids@[id.0 as int], self.nodes@.len())
    }

    /// All ancestors of `id`, nearest first.
    pub open spec fn ancestors_of(&self, id: NodeId) -> Seq<NodeId> {
        ancestor_chain(self.nodes@, id, self.nodes@.len())
    }

    /// Every element of `dfs(kids, cs, fuel)` is a valid slot when `cs` are.
    pub proof fn lemma_dfs_valid(&self, cs: Seq<NodeId>, fuel: nat)
        requires
            self.wf(),
            forall|i: int| 0 <= i < cs.len() ==> self.valid(#[trigger] cs[i]),
        ensures
            forall|i: int| 0 <= i < dfs(self.kids@, cs, fuel).len() ==> self.valid(#[trigger] dfs(self.kids@, cs, fuel)[i]),
        decreases fuel, cs.len(),
    {
        if cs.len() > 0 {
            let c = cs.last();
            let a = dfs(self.kids@, cs.drop_last(), fuel);
            self.lemma_dfs_valid(cs.drop_last(), fuel);
            let sub = if fuel == 0 { Seq::<NodeId>::empty() } else { dfs(self.kids@, self.kids@[c.0 as int], (fuel - 1) as nat) };
            if fuel > 0 {
                assert forall|i: int| 0 <= i < self.kids@[c.0 as int].len() implies self.valid(#[trigger] self.kids@[c.0 as int][i]) by {
                    assert(self.child_links_ok(c.0 as int, i));
                }
                self.lemma_dfs_valid(self.kids@[c.0 as int], (fuel - 1) as nat);
            }
            let d = dfs(self.kids@, cs, fuel);
            assert(d == a + seq![c] + sub);
            assert forall|i: int| 0 <= i < d.len() implies self.valid(#[trigger] d[i]) by {
                if i < a.len() {
                    assert(d[i] == a[i]);
                } else if i == a.len() {
                    assert(d[i] == c);
                } else {
                    assert(d[i] == sub[i - a.len() - 1]);
                }
            }
        }
    }

    /// The children of a valid node are valid.
    pub proof fn lemma_kids_valid(&self, id: NodeId)
        requires
            self.wf(),
            self.valid(id),
        ensures
            forall|i: int| 0 <= i < self.kids@[id.0 as int].len() ==> self.valid(#[trigger] self.kids@[id.0 as int][i]),
    {
        assert forall|i: int| 0 <= i < self.kids@[id.0 as int].len() implies self.valid(#[trigger] self.kids@[id.0 as int][i]) by {
            assert(self.child_links_ok(id.0 as int, i));
        }
    }

    /// Returns the number of direct children of a node.
    pub fn children_count(&self, id: NodeId) -> (n: usize)
        requires
            self.wf(),
            self.valid(id),
        ensures
            n == self.kids@[id.0 as int].len(),
    {
        let ghost cs = self.kids@[id.0 as int];
        proof {
            assert(self.node_links_ok(id.0 as int));
            self.lemma_kids_len(id.0 as int);
        }
        let mut count: usize = 0;
        let mut child = self.nodes[id.0].first_child;
        while child.is_some()
            invariant
                self.wf(),
                self.valid(id),
                cs == self.kids@[id.0 as int],
                0 <= count <= cs.len(),
                cs.len() <= usize::MAX,
                child == opt_at(cs, count as int),
            decreases cs.len() - count,
        {
            let c = child.unwrap();
            proof { assert(self.child_links_ok(id.0 as int, count as int)); }
            count += 1;
            child = self.nodes[c.0].next_sibling;
        }
        count
    }

    /// Returns the nth direct child (0-indexed).
    pub fn nth_child(&self, id: NodeId, n: usize) -> (r: Option<NodeId>)
        requires
            self.wf(),
            self.valid(id),
        ensures
            r == opt_at(self.kids@[id.0 as int], n as int),
    {
        let ghost cs = self.kids@[id.0 as int];
        proof { assert(self.node_links_ok(id.0 as int)); }
        let mut child = self.nodes[id.0].first_child;
        let mut i: usize = 0;
        while child.is_some()
            invariant
                self.wf(),
                self.valid(id),
                cs == self.kids@[id.0 as int],
                0 <= i <= cs.len(),
                i <= n,
                child == opt_at(cs, i as int),
            decreases cs.len() - i,
        {
            let c = child.unwrap();
            if i == n {
                return Some(c);
            }
            proof { assert(self.child_links_ok(id.0 as int, i as int)); }
            i += 1;
            child = self.nodes[c.0].next_sibling;
        }
        None
    }

    /// The direct children of `id`, in order.
    pub fn children(&self, id: NodeId) -> (r: Vec<NodeId>)
        requires
            self.wf(),
            self.valid(id),
        ensures
            r@ == self.kids@[id.0 as int],
    {
        let ghost cs = self.kids@[id.0 as int];
        proof { assert(self.node_links_ok(id.0 as int)); }
        let mut out: Vec<NodeId> = Vec::new();
        let mut child = self.nodes[id.0].first_child;
        while child.is_some()
            invariant
                self.wf(),
                self.valid(id),
                cs == self.kids@[id.0 as int],
                out@.len() <= cs.len(),
                out@ == cs.take(out@.len() as int),
                child == opt_at(cs, out@.len() as int),
            decreases cs.len() - out@.len(),
        {
            let c = child.unwrap();
            proof { assert(self.child_links_ok(id.0 as int, out@.len() as int)); }
            out.push(c);
            proof { assert(out@ =~= cs.take(out@.len() as int)); }
            child = self.nodes[c.0].next_sibling;
        }
        proof { assert(cs.take(cs.len() as int) =~= cs); }
        out
    }

    /// Appends to `out` the pre-order listing of the subtrees under `id`.
    fn collect_descendants(&self, id: NodeId, fuel: usize, out: &mut Vec<NodeId>)
        requires
            self.wf(),
            self.valid(id),
        ensures
            final(out)@ == old(out)@ + dfs(self.kids@, self.kids@[id.0 as int], fuel as nat),
        decreases fuel,
    {
        let ghost cs = self.kids@[id.0 as int];
        let ghost start = out@;
        proof {
            assert(self.node_links_ok(id.0 as int));
            assert(cs.take(0) =~= Seq::<NodeId>::empty());
        }
        let mut child = self.nodes[id.0].first_child;
        let ghost mut k: int = 0;
        while child.is_some()
            invariant
                self.wf(),
                self.valid(id),
                cs == self.kids@[id.0 as int],
                0 <= k <= cs.len(),
                child == opt_at(cs, k),
                out@ == start + dfs(self.kids@, cs.take(k), fuel as nat),
            decreases cs.len() - k,
        {
            let c = child.unwrap();
            proof {
                assert(self.child_links_ok(id.0 as int, k));
                assert(cs.take(k + 1).drop_last() =~= cs.take(k));
                assert(cs.take(k + 1).last() == c);
            }
            out.push(c);
            if fuel > 0 {
                self.collect_descendants(c, fuel - 1, out);
            }
            proof {
                assert(out@ =~= start + dfs(self.kids@, cs.take(k + 1), fuel as nat));
                k = k + 1;
            }
            child = self.nodes[c.0].next_sibling;
        }
        proof { assert(cs.take(k) =~= cs); }
    }

    /// All descendants of `id` in pre-order (depth-first, first child first).
    pub fn descendants(&self, id: NodeId) -> (r: Vec<NodeId>)
        requires
            self.wf(),
            self.valid(id),
        ensures
            r@ == self.descendants_of(id),
    {
        let mut out: Vec<NodeId> = Vec::new();
        self.collect_descendants(id, self.nodes.len(), &mut out);
        proof { assert(out@ =~= self.descendants_of(id)); }
        out
    }

    /// The ancestors of `id`, nearest first.
    pub fn ancestors(&self, id: NodeId) -> (r: Vec<NodeId>)
        requires
            self.wf(),
            self.valid(id),
        ensures
            r@ == self.ancestors_of(id),
    {
        let mut out: Vec<NodeId> = Vec::new();
        let mut fuel: usize = self.nodes.len();
        let mut current = id;
        proof { assert(self.node_links_ok(id.0 as int)); }
        while fuel > 0
            invariant
                self.wf(),
                self.valid(current),
                out@ + ancestor_chain(self.nodes@, current, fuel as nat) == self.ancestors_of(id),
            ensures
                out@ == self.ancestors_of(id),
            decreases fuel,
        {
            match self.nodes[current.0].parent {
                None => {
                    proof {
                        assert(ancestor_chain(self.nodes@, current, fuel as nat) =~= Seq::<NodeId>::empty());
                        assert(out@ + Seq::<NodeId>::empty() =~= out@);
                    }
                    break;
                },
                Some(p) => {
                    proof {
                        assert(self.node_links_ok(current.0 as int));
                        assert(out@.push(p) + ancestor_chain(self.nodes@, p, (fuel - 1) as nat)
                            =~= out@ + ancestor_chain(self.nodes@, current, fuel as nat));
                    }
                    out.push(p);
                    current = p;
                    fuel -= 1;
                },
            }
        }
        out
    }

    /// Returns the parent of a node.
    pub fn parent(&self, id: NodeId) -> (r: Option<NodeId>)
        requires
            self.valid(id),
        ensures
            r == self.nodes@[id.0 as int].parent,
    {
        self.nodes[id.0].parent
    }

    /// Returns the first child of a node.
    pub fn first_child(&self, id: NodeId) -> (r: Option<NodeId>)
        requires
            self.wf(),
            self.valid(id),
        ensures
            r == self.nodes@[id.0 as int].first_child,
            r == opt_first(self.kids@[id.0 as int]),
    {
        proof { assert(self.node_links_ok(id.0 as int)); }
        self.nodes[id.0].first_child
    }

    /// Returns the last child of a node.
    pub fn last_child(&self, id: NodeId) -> (r: Option<NodeId>)
        requires
            self.wf(),
            self.valid(id),
        ensures
            r == self.nodes@[id.0 as int].last_child,
            r == opt_last(self.kids@[id.0 as int]),
    {
        proof { assert(self.node_links_ok(id.0 as int)); }
        self.nodes[id.0].last_child
    }

    /// Returns the next sibling of a node.
    pub fn next_sibling(&self, id: NodeId) -> (r: Option<NodeId>)
        requires
            self.valid(id),
        ensures
            r == self.nodes@[id.0 as int].next_sibling,
    {
        self.nodes[id.0].next_sibling
    }

    /// Returns the previous sibling of a node.
    pub fn prev_sibling(&self, id: NodeId) -> (r: Option<NodeId>)
        requires
            self.valid(id),
        ensures
            r == self.nodes@[id.0 as int].prev_sibling,
    {
        self.nodes[id.0].prev_sibling
    }
}

/// Steps through a precomputed sequence of node handles.
pub struct NodeSeqIter {
    pub items: Vec<NodeId>,
    pub pos: usize,
}

impl NodeSeqIter {
    /// The next handle, if any.
    pub fn next(&mut self) -> (r: Option<NodeId>)
        ensures
            final(self).items == old(self).items,
            old(self).pos < old(self).items@.len() ==> r == Some(old(self).items@[old(self).pos as int])
                && final(self).pos == old(self).pos + 1,
            old(self).pos >= old(self).items@.len() ==> r is None && final(self).pos == old(self).pos,
    {
        if self.pos < self.items.len() {
            let r = self.items[self.pos];
            self.pos = self.pos + 1;
            Some(r)
        } else {
            None
        }
    }
}

/// Iterates over the direct children of a node.
pub struct ChildIter {
    pub inner: NodeSeqIter,
}

impl ChildIter {
    /// An iterator over the children of `parent`.
    pub fn new(doc: &Document, parent: NodeId) -> (it: Self)
        requires
            doc.wf(),
            doc.valid(parent),
        ensures
            it.inner.items@ == doc.kids@[parent.0 as int],
            it.inner.pos == 0,
    {
        ChildIter { inner: NodeSeqIter { items: doc.children(parent), pos: 0 } }
    }
}

/// Pre-order depth-first traversal of all descendants.
pub struct DescendantIter {
    pub inner: NodeSeqIter,
}

impl DescendantIter {
    /// An iterator over the descendants of `root`.
    pub fn new(doc: &Document, root: NodeId) -> (it: Self)
        requires
            doc.wf(),
            doc.valid(root),
        ensures
            it.inner.items@ == doc.descendants_of(root),
            it.inner.pos == 0,
    {
        DescendantIter { inner: NodeSeqIter { items: doc.descendants(root), pos: 0 } }
    }
}

/// Walks up the ancestor chain from a node.
pub struct AncestorIter {
    pub inner: NodeSeqIter,
}

impl AncestorIter {
    /// An iterator over the ancestors of `node`, nearest first.
    pub fn new(doc: &Document, node: NodeId) -> (it: Self)
        requires
            doc.wf(),
            doc.valid(node),
        ensures
            it.inner.items@ == doc.ancestors_of(node),
            it.inner.pos == 0,
    {
        AncestorIter { inner: NodeSeqIter { items: doc.ancestors(node), pos: 0 } }
    }
}

} // verus!
