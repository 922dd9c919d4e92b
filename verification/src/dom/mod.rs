//! Arena-based DOM: a document tree with JS-like manipulation APIs.
//!
//! The `Document` owns all nodes in a flat `Vec` arena, referenced by
//! copyable `NodeId` handles. Parent/child/sibling links use `Option<NodeId>`,
//! forming a doubly-linked list per parent.

use vstd::prelude::*;

pub mod node;
pub mod id_index;
pub mod mutation;
pub mod tree;
pub mod traversal;
pub mod attributes;
pub mod subtree;
pub mod serialize;
pub mod selector;
pub mod query;
pub mod events;
pub mod parse;
pub mod laws;

use node::{NodeId, NodeData, NodeKind, ElementData, is_fresh};
use crate::text::str_eq;
use id_index::IdIndex;
use mutation::MutationObserver;

verus! {

/// The first element of `s`, if any.
pub open spec fn opt_first(s: Seq<NodeId>) -> Option<NodeId> {
    if s.len() == 0 { None } else { Some(s[0]) }
}

/// The last element of `s`, if any.
pub open spec fn opt_last(s: Seq<NodeId>) -> Option<NodeId> {
    if s.len() == 0 { None } else { Some(s.last()) }
}

/// The element of `s` at `k`, if `k` is in range.
pub open spec fn opt_at(s: Seq<NodeId>, k: int) -> Option<NodeId> {
    if 0 <= k < s.len() { Some(s[k]) } else { None }
}

/// Two nodes carry the same payload (kind, listeners, freed flag).
pub open spec fn same_payload(a: NodeData, b: NodeData) -> bool {
    &&& a.kind == b.kind
    &&& a.event_listeners == b.event_listeners
    &&& a.freed == b.freed
}

/// An arena-based DOM document. All nodes live in `self.nodes`.
pub struct Document {
    pub nodes: Vec<NodeData>,
    pub root: NodeId,
    pub free_list: Vec<usize>,
    pub id_index: IdIndex,
    pub mutation_observers: Vec<MutationObserver>,
    /// The children of every node, in order.
    pub kids: Ghost<Seq<Seq<NodeId>>>,
}

impl Document {
    /// Number of arena slots.
    pub open spec fn size(&self) -> int {
        self.nodes@.len() as int
    }

    /// `id` names a slot of the arena.
    pub open spec fn valid(&self, id: NodeId) -> bool {
        id.0 < self.nodes@.len()
    }

    /// `id` names a live (not freed) slot of the arena.
    pub open spec fn live(&self, id: NodeId) -> bool {
        id.0 < self.nodes@.len() && !self.nodes@[id.0 as int].freed
    }

    /// The link fields of node `i` agree with the children model.
    pub open spec fn node_links_ok(&self, i: int) -> bool {
        let n = self.nodes@[i];
        &&& n.first_child == opt_first(self.kids@[i])
        &&& n.last_child == opt_last(self.kids@[i])
        &&& self.kids@[i].no_duplicates()
        &&& (n.parent matches Some(p) ==> p.0 < self.nodes@.len() && self.kids@[p.0 as int].contains(NodeId(i as usize)))
        &&& (n.parent is None ==> n.prev_sibling is None && n.next_sibling is None)
    }

    /// The `k`-th child of node `i` points back at `i` and at its neighbours.
    pub open spec fn child_links_ok(&self, i: int, k: int) -> bool {
        let c = self.kids@[i][k];
        &&& c.0 < self.nodes@.len()
        &&& self.nodes@[c.0 as int].parent == Some(NodeId(i as usize))
        &&& self.nodes@[c.0 as int].prev_sibling == opt_at(self.kids@[i], k - 1)
        &&& self.nodes@[c.0 as int].next_sibling == opt_at(self.kids@[i], k + 1)
    }

    /// The free list holds distinct, freed, unlinked slots.
    pub open spec fn free_list_ok(&self) -> bool {
        &&& self.free_list@.no_duplicates()
        &&& forall|k: int| 0 <= k < self.free_list@.len() ==> {
            let f = #[trigger] self.free_list@[k];
            &&& f < self.nodes@.len()
            &&& self.nodes@[f as int].freed
            &&& self.nodes@[f as int].parent is None
            &&& self.kids@[f as int].len() == 0
        }
    }

    /// Well-formedness only depends on the arena, the model, the root, the free list and the id index.
    pub proof fn lemma_wf_same_links(a: Document, b: Document)
        requires
            a.wf(),
            b.nodes@.len() == a.nodes@.len(),
            forall|j: int| 0 <= j < a.nodes@.len() ==> {
                &&& (#[trigger] b.nodes@[j]).parent == a.nodes@[j].parent
                &&& b.nodes@[j].first_child == a.nodes@[j].first_child
                &&& b.nodes@[j].last_child == a.nodes@[j].last_child
                &&& b.nodes@[j].prev_sibling == a.nodes@[j].prev_sibling
                &&& b.nodes@[j].next_sibling == a.nodes@[j].next_sibling
                &&& b.nodes@[j].freed == a.nodes@[j].freed
            },
            b.kids == a.kids,
            b.root == a.root,
            b.free_list == a.free_list,
            b.id_index.wf(),
        ensures
            b.wf(),
    {
        assert forall|i: int| 0 <= i < b.nodes@.len() implies #[trigger] b.node_links_ok(i) by {
            assert(a.node_links_ok(i));
            if let Some(p) = b.nodes@[i].parent {
            }
        }
        assert forall|i: int, k: int| 0 <= i < b.nodes@.len() && 0 <= k < b.kids@[i].len()
            implies #[trigger] b.child_links_ok(i, k) by {
            assert(a.child_links_ok(i, k));
            let c = a.kids@[i][k];
            assert(b.nodes@[c.0 as int].parent == a.nodes@[c.0 as int].parent);
        }
        assert forall|q: int| 0 <= q < b.free_list@.len() implies {
            let f = #[trigger] b.free_list@[q];
            &&& f < b.nodes@.len()
            &&& b.nodes@[f as int].freed
            &&& b.nodes@[f as int].parent is None
            &&& b.kids@[f as int].len() == 0
        } by {
            let f = b.free_list@[q];
            assert(a.nodes@[f as int].freed);
        }
    }

    /// A duplicate-free sequence of handles below `n` has at most `n` elements.
    pub proof fn lemma_nodup_bound(s: Seq<NodeId>, n: nat)
        requires
            s.no_duplicates(),
            forall|i: int| 0 <= i < s.len() ==> (#[trigger] s[i]).0 < n,
        ensures
            s.len() <= n,
        decreases n,
    {
        if n == 0 {
            if s.len() > 0 {
                assert(s[0].0 < 0);
            }
        } else {
            let top = NodeId((n - 1) as usize);
            let t = if s.contains(top) {
                let k = choose|k: int| 0 <= k < s.len() && s[k] == top;
                let t = s.remove(k);
                assert forall|i: int| 0 <= i < t.len() implies (#[trigger] t[i]).0 < n - 1 by {
                    let oi = if i < k { i } else { i + 1 };
                    assert(t[i] == s[oi]);
                }
                assert forall|a: int, b: int| 0 <= a < t.len() && 0 <= b < t.len() && a != b implies t[a] != t[b] by {
                    let oa = if a < k { a } else { a + 1 };
                    let ob = if b < k { b } else { b + 1 };
                    assert(t[a] == s[oa]);
                    assert(t[b] == s[ob]);
                }
                t
            } else {
                assert forall|i: int| 0 <= i < s.len() implies (#[trigger] s[i]).0 < n - 1 by {
                    if s[i].0 == n - 1 {
                        assert(s[i] == top);
                    }
                }
                s
            };
            Self::lemma_nodup_bound(t, (n - 1) as nat);
        }
    }

    /// Every children list is no longer than the arena.
    pub proof fn lemma_kids_len(&self, i: int)
        requires
            self.wf(),
            0 <= i < self.nodes@.len(),
        ensures
            self.kids@[i].len() <= self.nodes@.len(),
    {
        assert(self.node_links_ok(i));
        assert forall|k: int| 0 <= k < self.kids@[i].len() implies (#[trigger] self.kids@[i][k]).0 < self.nodes@.len() by {
            assert(self.child_links_ok(i, k));
        }
        Self::lemma_nodup_bound(self.kids@[i], self.nodes@.len());
    }

    /// Well-formedness: the links form consistent doubly-linked child lists.
    pub open spec fn wf(&self) -> bool {
        &&& self.kids@.len() == self.nodes@.len()
        &&& self.nodes@.len() <= usize::MAX
        &&& self.root.0 < self.nodes@.len()
        &&& self.id_index.wf()
        &&& forall|i: int| 0 <= i < self.nodes@.len() ==> #[trigger] self.node_links_ok(i)
        &&& forall|i: int, k: int| 0 <= i < self.nodes@.len() && 0 <= k < self.kids@[i].len()
            ==> #[trigger] self.child_links_ok(i, k)
        &&& self.free_list_ok()
    }
}


/// `n` is an element with tag `tag` and no attributes, id or classes, not void.
pub open spec fn plain_element(n: NodeData, tag: Seq<char>) -> bool {
    n.kind matches NodeKind::Element(el) && el.tag@ == tag && el.attributes@.len() == 0
        && el.id is None && el.class_list@.len() == 0 && !el.self_closing
}

/// `n` is an element whose tag is `tag`.
pub open spec fn has_tag(n: NodeData, tag: Seq<char>) -> bool {
    match n.kind {
        NodeKind::Element(el) => el.tag@ == tag,
        _ => false,
    }
}

/// The first node of `s` that is an element with tag `tag`.
pub open spec fn first_with_tag(nodes: Seq<NodeData>, s: Seq<NodeId>, tag: Seq<char>) -> Option<NodeId>
    decreases s.len(),
{
    if s.len() == 0 {
        None
    } else if has_tag(nodes[s[0].0 as int], tag) {
        Some(s[0])
    } else {
        first_with_tag(nodes, s.drop_first(), tag)
    }
}

impl Document {
    /// Creates a new empty document with a root Document node at index 0.
    pub fn new() -> (doc: Self)
        ensures
            doc.wf(),
            doc.nodes@.len() == 1,
            doc.root == NodeId(0),
            doc.nodes@[0].kind == NodeKind::Document,
            is_fresh(doc.nodes@[0]),
            doc.kids@ == seq![Seq::<NodeId>::empty()],
            doc.free_list@.len() == 0,
            doc.id_index@ == Map::<Seq<char>, NodeId>::empty(),
            doc.mutation_observers@.len() == 0,
    {
        let mut nodes = Vec::new();
        nodes.push(NodeData::new(NodeKind::Document));
        let ghost k0 = seq![Seq::<NodeId>::empty()];
        let doc = Document {
            nodes,
            root: NodeId(0),
            free_list: Vec::new(),
            id_index: IdIndex::new(),
            mutation_observers: Vec::new(),
            kids: Ghost(k0),
        };
        proof {
            assert(doc.node_links_ok(0));
        }
        doc
    }

    /// Allocates a new node in the arena, reusing freed slots.
    pub fn alloc_node(&mut self, data: NodeData) -> (id: NodeId)
        requires
            old(self).wf(),
            is_fresh(data),
        ensures
            final(self).wf(),
            final(self).valid(id),
            final(self).nodes@[id.0 as int] == data,
            old(self).free_list@.len() > 0 ==> {
                &&& id.0 == old(self).free_list@.last()
                &&& final(self).free_list@ == old(self).free_list@.drop_last()
                &&& final(self).nodes@ == old(self).nodes@.update(id.0 as int, data)
                &&& final(self).kids@ == old(self).kids@
            },
            old(self).free_list@.len() == 0 ==> {
                &&& id.0 == old(self).nodes@.len()
                &&& final(self).free_list@ == old(self).free_list@
                &&& final(self).nodes@ == old(self).nodes@.push(data)
                &&& final(self).kids@ == old(self).kids@.push(Seq::<NodeId>::empty())
            },
            final(self).root == old(self).root,
            final(self).id_index == old(self).id_index,
            final(self).mutation_observers == old(self).mutation_observers,
    {
        let ghost old_self = *self;
        if let Some(idx) = self.free_list.pop() {
            proof {
                assert(old_self.free_list@[old_self.free_list@.len() - 1] == idx);
                assert(old_self.node_links_ok(idx as int));
                assert(self.free_list@ =~= old_self.free_list@.drop_last());
            }
            self.nodes.set(idx, data);
            proof {
                let len = self.nodes@.len();
                assert(len == old_self.nodes@.len());
                assert forall|i: int| 0 <= i < len implies #[trigger] self.node_links_ok(i) by {
                    assert(old_self.node_links_ok(i));
                    if i != idx as int {
                        if let Some(p) = self.nodes@[i].parent {
                            if p.0 == idx {
                                let ol = old_self.kids@[idx as int];
                                assert(ol.contains(NodeId(i as usize)));
                            }
                        }
                    }
                }
                assert forall|i: int, k: int| 0 <= i < len && 0 <= k < self.kids@[i].len()
                    implies #[trigger] self.child_links_ok(i, k) by {
                    assert(old_self.child_links_ok(i, k));
                    let c = self.kids@[i][k];
                    assert(c.0 != idx);
                }
                assert forall|q: int| 0 <= q < self.free_list@.len() implies {
                    let f = #[trigger] self.free_list@[q];
                    &&& f < self.nodes@.len()
                    &&& self.nodes@[f as int].freed
                    &&& self.nodes@[f as int].parent is None
                    &&& self.kids@[f as int].len() == 0
                } by {
                    assert(self.free_list@[q] == old_self.free_list@[q]);
                    assert(old_self.free_list@[q] != idx);
                }
                assert forall|a: int, b: int| 0 <= a < self.free_list@.len() && 0 <= b < self.free_list@.len() && a != b
                    implies self.free_list@[a] != self.free_list@[b] by {
                    assert(self.free_list@[a] == old_self.free_list@[a]);
                    assert(self.free_list@[b] == old_self.free_list@[b]);
                }
            }
            NodeId(idx)
        } else {
            let idx = self.nodes.len();
            self.nodes.push(data);
            proof {
                self.kids = Ghost(old_self.kids@.push(Seq::<NodeId>::empty()));
                let len = self.nodes@.len();
                assert(self.nodes.len() == len);
                assert forall|i: int| 0 <= i < len implies #[trigger] self.node_links_ok(i) by {
                    if i < old_self.nodes@.len() {
                        assert(old_self.node_links_ok(i));
                        assert(self.nodes@[i] == old_self.nodes@[i]);
                        assert(self.kids@[i] == old_self.kids@[i]);
                        if let Some(p) = self.nodes@[i].parent {
                            assert(self.kids@[p.0 as int] == old_self.kids@[p.0 as int]);
                        }
                    }
                }
                assert forall|i: int, k: int| 0 <= i < len && 0 <= k < self.kids@[i].len()
                    implies #[trigger] self.child_links_ok(i, k) by {
                    assert(old_self.child_links_ok(i, k));
                }
                assert forall|q: int| 0 <= q < self.free_list@.len() implies {
                    let f = #[trigger] self.free_list@[q];
                    &&& f < self.nodes@.len()
                    &&& self.nodes@[f as int].freed
                    &&& self.nodes@[f as int].parent is None
                    &&& self.kids@[f as int].len() == 0
                } by {
                }
            }
            NodeId(idx)
        }
    }

    /// Creates a new Element node in the arena.
    pub fn create_element(&mut self, tag: &str) -> (id: NodeId)
        requires
            old(self).wf(),
        ensures
            final(self).wf(),
            final(self).live(id),
            final(self).alloc_result(*old(self), id),
            final(self).nodes@[id.0 as int].kind matches NodeKind::Element(el) && el.tag@ == tag@
                && el.attributes@.len() == 0 && el.id is None && el.class_list@.len() == 0 && !el.self_closing,
            is_fresh(final(self).nodes@[id.0 as int]),
    {
        let el = ElementData::new(tag);
        self.alloc_node(NodeData::new(NodeKind::Element(el)))
    }

    /// Creates a new void (self-closing) Element node.
    pub fn create_element_void(&mut self, tag: &str) -> (id: NodeId)
        requires
            old(self).wf(),
        ensures
            final(self).wf(),
            final(self).live(id),
            final(self).alloc_result(*old(self), id),
            final(self).nodes@[id.0 as int].kind matches NodeKind::Element(el) && el.tag@ == tag@
                && el.attributes@.len() == 0 && el.id is None && el.class_list@.len() == 0 && el.self_closing,
            is_fresh(final(self).nodes@[id.0 as int]),
    {
        let el = ElementData::new_void(tag);
        self.alloc_node(NodeData::new(NodeKind::Element(el)))
    }

    /// Creates a new Text node in the arena.
    pub fn create_text(&mut self, text: &str) -> (id: NodeId)
        requires
            old(self).wf(),
        ensures
            final(self).wf(),
            final(self).live(id),
            final(self).alloc_result(*old(self), id),
            final(self).nodes@[id.0 as int].kind matches NodeKind::Text(t) && t@ == text@,
            is_fresh(final(self).nodes@[id.0 as int]),
    {
        self.alloc_node(NodeData::new(NodeKind::Text(text.to_owned())))
    }

    /// Creates a new Comment node in the arena.
    pub fn create_comment(&mut self, text: &str) -> (id: NodeId)
        requires
            old(self).wf(),
        ensures
            final(self).wf(),
            final(self).live(id),
            final(self).alloc_result(*old(self), id),
            final(self).nodes@[id.0 as int].kind matches NodeKind::Comment(t) && t@ == text@,
            is_fresh(final(self).nodes@[id.0 as int]),
    {
        self.alloc_node(NodeData::new(NodeKind::Comment(text.to_owned())))
    }

    /// Creates a new DocumentFragment node in the arena.
    pub fn create_document_fragment(&mut self) -> (id: NodeId)
        requires
            old(self).wf(),
        ensures
            final(self).wf(),
            final(self).live(id),
            final(self).alloc_result(*old(self), id),
            final(self).nodes@[id.0 as int].kind == NodeKind::DocumentFragment,
            is_fresh(final(self).nodes@[id.0 as int]),
    {
        self.alloc_node(NodeData::new(NodeKind::DocumentFragment))
    }

    /// `self` is `before` with one slot `id` (re)allocated: every other slot, every
    /// children list and the free list (but for the reused slot) are as they were.
    pub open spec fn alloc_result(&self, before: Document, id: NodeId) -> bool {
        &&& self.root == before.root
        &&& self.id_index == before.id_index
        &&& self.mutation_observers == before.mutation_observers
        &&& self.kids@[id.0 as int].len() == 0
        &&& (before.free_list@.len() > 0 ==> {
            &&& id.0 == before.free_list@.last()
            &&& self.free_list@ == before.free_list@.drop_last()
            &&& self.nodes@.len() == before.nodes@.len()
            &&& self.kids@ == before.kids@
        })
        &&& (before.free_list@.len() == 0 ==> {
            &&& id.0 == before.nodes@.len()
            &&& self.free_list@ == before.free_list@
            &&& self.nodes@.len() == before.nodes@.len() + 1
            &&& self.kids@ == before.kids@.push(Seq::<NodeId>::empty())
        })
        &&& forall|j: int| 0 <= j < before.nodes@.len() && j != id.0 ==> #[trigger] self.nodes@[j] == before.nodes@[j]
    }

    /// Returns the root document node.
    pub fn root(&self) -> (r: NodeId)
        ensures
            r == self.root,
    {
        self.root
    }

    /// Returns a reference to the node data at `id`.
    pub fn get(&self, id: NodeId) -> (r: &NodeData)
        requires
            self.live(id),
        ensures
            *r == self.nodes@[id.0 as int],
    {
        &self.nodes[id.0]
    }

    /// Returns a mutable reference to the node data at `id`. Changing the links
    /// through it is the caller's responsibility.
    pub fn get_mut(&mut self, id: NodeId) -> (r: &mut NodeData)
        requires
            old(self).live(id),
        ensures
            *r == old(self).nodes@[id.0 as int],
            final(self).nodes@ == old(self).nodes@.update(id.0 as int, *final(r)),
            final(self).kids == old(self).kids,
            final(self).root == old(self).root,
            final(self).free_list == old(self).free_list,
            final(self).id_index == old(self).id_index,
            final(self).mutation_observers == old(self).mutation_observers,
    {
        &mut self.nodes[id.0]
    }

    /// Creates a new document with `<html>`, `<head>`, and `<body>` scaffolding.
    pub fn new_html() -> (doc: Self)
        ensures
            doc.wf(),
            doc.nodes@.len() == 4,
            doc.root == NodeId(0),
            doc.kids@[0] == seq![NodeId(1)],
            doc.kids@[1] == seq![NodeId(2), NodeId(3)],
            doc.kids@[2].len() == 0,
            doc.kids@[3].len() == 0,
            has_tag(doc.nodes@[1], "html"@),
            has_tag(doc.nodes@[2], "head"@),
            has_tag(doc.nodes@[3], "body"@),
            plain_element(doc.nodes@[1], "html"@),
            plain_element(doc.nodes@[2], "head"@),
            plain_element(doc.nodes@[3], "body"@),
            doc.nodes@[0].kind == NodeKind::Document,
            doc.free_list@.len() == 0,
            doc.mutation_observers@.len() == 0,
    {
        let mut doc = Document::new();
        let html = doc.create_element("html");
        let head = doc.create_element("head");
        let body = doc.create_element("body");
        let root = doc.root;
        proof {
            assert(html == NodeId(1) && head == NodeId(2) && body == NodeId(3));
            assert(doc.kids@[0].len() == 0 && doc.kids@[1].len() == 0);
        }
        let ghost d0 = doc;
        doc.attach_child(root, html);
        proof {
            Document::lemma_append_keeps_orphan(d0, doc, root, html, head);
            Document::lemma_append_keeps_orphan(d0, doc, root, html, body);
        }
        let ghost d1 = doc;
        doc.attach_child(html, head);
        proof {
            Document::lemma_append_keeps_orphan(d1, doc, html, head, body);
        }
        doc.attach_child(html, body);
        proof {
            assert(doc.kids@[0] =~= seq![NodeId(1)]);
            assert(doc.kids@[1] =~= seq![NodeId(2), NodeId(3)]);
        }
        doc
    }

    /// Returns the first child of `root` that is an element with tag `tag`.
    fn child_with_tag(&self, parent: NodeId, tag: &str) -> (r: Option<NodeId>)
        requires
            self.wf(),
            self.valid(parent),
        ensures
            r == first_with_tag(self.nodes@, self.kids@[parent.0 as int], tag@),
    {
        let ghost cs = self.kids@[parent.0 as int];
        proof { assert(self.node_links_ok(parent.0 as int)); }
        let mut child = self.nodes[parent.0].first_child;
        let ghost mut k: int = 0;
        proof { assert(cs.skip(0) =~= cs); }
        while child.is_some()
            invariant
                self.wf(),
                self.valid(parent),
                cs == self.kids@[parent.0 as int],
                0 <= k <= cs.len(),
                child == opt_at(cs, k),
                first_with_tag(self.nodes@, cs, tag@) == first_with_tag(self.nodes@, cs.skip(k), tag@),
            decreases cs.len() - k,
        {
            let id = child.unwrap();
            proof {
                assert(self.child_links_ok(parent.0 as int, k));
                assert(cs.skip(k)[0] == id);
                assert(cs.skip(k).drop_first() =~= cs.skip(k + 1));
            }
            if let NodeKind::Element(el) = &self.nodes[id.0].kind {
                if str_eq(el.tag.as_str(), tag) {
                    return Some(id);
                }
            }
            child = self.nodes[id.0].next_sibling;
            proof { k = k + 1; }
        }
        proof {
            assert(cs.skip(k).len() == 0);
        }
        None
    }

    /// Returns the `<html>` element (first element child of root), if present.
    pub fn document_element(&self) -> (r: Option<NodeId>)
        requires
            self.wf(),
        ensures
            r == first_with_tag(self.nodes@, self.kids@[self.root.0 as int], "html"@),
    {
        self.child_with_tag(self.root, "html")
    }

    /// Returns the `<head>` element, if present.
    pub fn head(&self) -> (r: Option<NodeId>)
        requires
            self.wf(),
        ensures
            r == (match first_with_tag(self.nodes@, self.kids@[self.root.0 as int], "html"@) {
                Some(h) => first_with_tag(self.nodes@, self.kids@[h.0 as int], "head"@),
                None => None,
            }),
    {
        let html = self.document_element()?;
        proof {
            let rk = self.kids@[self.root.0 as int];
            assert(rk.skip(0) =~= rk);
            self.lemma_first_with_tag_valid(rk, "html"@, self.root.0 as int);
        }
        self.child_with_tag(html, "head")
    }

    /// Returns the `<body>` element, if present.
    pub fn body(&self) -> (r: Option<NodeId>)
        requires
            self.wf(),
        ensures
            r == (match first_with_tag(self.nodes@, self.kids@[self.root.0 as int], "html"@) {
                Some(h) => first_with_tag(self.nodes@, self.kids@[h.0 as int], "body"@),
                None => None,
            }),
    {
        let html = self.document_element()?;
        proof {
            let rk = self.kids@[self.root.0 as int];
            assert(rk.skip(0) =~= rk);
            self.lemma_first_with_tag_valid(rk, "html"@, self.root.0 as int);
        }
        self.child_with_tag(html, "body")
    }

    proof fn lemma_first_with_tag_valid(&self, s: Seq<NodeId>, tag: Seq<char>, p: int)
        requires
            self.wf(),
            0 <= p < self.nodes@.len(),
            s == self.kids@[p].skip(self.kids@[p].len() - s.len()),
            s.len() <= self.kids@[p].len(),
        ensures
            first_with_tag(self.nodes@, s, tag) matches Some(h) ==> self.valid(h),
        decreases s.len(),
    {
        if s.len() > 0 {
            let k = self.kids@[p].len() - s.len();
            assert(s[0] == self.kids@[p][k]);
            assert(self.child_links_ok(p, k));
            assert(s.drop_first() =~= self.kids@[p].skip(k + 1));
            self.lemma_first_with_tag_valid(s.drop_first(), tag, p);
        }
    }
}

} // verus!
