//! DOM query methods: getElementById, getElementsByTagName, querySelector, etc.

use vstd::prelude::*;
use super::{Document, has_tag};
use super::node::{NodeId, NodeKind};
use super::attributes::{element_of, strs_view};
use super::selector::{parse_selector, SelectorList, sel_list, list_view};

verus! {

/// The elements of `s` that satisfy `p`, in order.
pub open spec fn keep_ids(s: Seq<NodeId>, p: spec_fn(NodeId) -> bool) -> Seq<NodeId>
    decreases s.len(),
{
    if s.len() == 0 {
        s
    } else {
        let r = keep_ids(s.drop_last(), p);
        if p(s.last()) { r.push(s.last()) } else { r }
    }
}

/// The first element of `s` that satisfies `p`.
pub open spec fn first_id(s: Seq<NodeId>, p: spec_fn(NodeId) -> bool) -> Option<NodeId>
    decreases s.len(),
{
    if s.len() == 0 {
        None
    } else if p(s[0]) {
        Some(s[0])
    } else {
        first_id(s.drop_first(), p)
    }
}

proof fn lemma_first_id_drop_last(s: Seq<NodeId>, p: spec_fn(NodeId) -> bool)
    requires
        s.len() > 0,
    ensures
        first_id(s, p) == (match first_id(s.drop_last(), p) {
            Some(x) => Some(x),
            None => if p(s.last()) { Some(s.last()) } else { None },
        }),
    decreases s.len(),
{
    if s.len() == 1 {
        assert(s.drop_first().len() == 0);
        assert(s.drop_last().len() == 0);
    } else if p(s[0]) {
        assert(s.drop_last()[0] == s[0]);
    } else {
        assert(s.drop_first().drop_last() =~= s.drop_last().drop_first());
        assert(s.drop_last()[0] == s[0]);
        assert(s.drop_first().last() == s.last());
        lemma_first_id_drop_last(s.drop_first(), p);
    }
}

/// The first element of `s` satisfying `p` is the first of those `keep_ids` keeps.
pub proof fn lemma_first_is_first_kept(s: Seq<NodeId>, p: spec_fn(NodeId) -> bool)
    ensures
        first_id(s, p) == (if keep_ids(s, p).len() > 0 { Some(keep_ids(s, p)[0]) } else { None }),
    decreases s.len(),
{
    if s.len() > 0 {
        lemma_first_is_first_kept(s.drop_last(), p);
        lemma_first_id_drop_last(s, p);
    }
}

impl Document {
    /// The element `n` carries class `class`.
    pub open spec fn has_class_spec(&self, n: NodeId, class: Seq<char>) -> bool {
        element_of(self.nodes@[n.0 as int]) matches Some(el) && strs_view(el.class_list@).contains(class)
    }

    /// Lookup of an element by its id, through the id index.
    pub fn get_element_by_id(&self, id: &str) -> (r: Option<NodeId>)
        requires
            self.wf(),
        ensures
            r == (if self.id_index@.contains_key(id@) { Some(self.id_index@[id@]) } else { None }),
    {
        self.id_index.get(id)
    }

    /// Returns all element descendants with a given tag name, in document order.
    pub fn get_elements_by_tag_name(&self, root: NodeId, tag: &str) -> (r: Vec<NodeId>)
        requires
            self.wf(),
            self.valid(root),
        ensures
            r@ == keep_ids(self.descendants_of(root), |n: NodeId| has_tag(self.nodes@[n.0 as int], tag@)),
    {
        let ghost p = |n: NodeId| has_tag(self.nodes@[n.0 as int], tag@);
        let descs = self.descendants(root);
        proof { self.lemma_descendants_valid(root); }
        let mut out: Vec<NodeId> = Vec::new();
        let mut i: usize = 0;
        while i < descs.len()
            invariant
                p == (|n: NodeId| has_tag(self.nodes@[n.0 as int], tag@)),
                self.wf(),
                descs@ == self.descendants_of(root),
                forall|k: int| 0 <= k < descs@.len() ==> self.valid(#[trigger] descs@[k]),
                i <= descs@.len(),
                out@ == keep_ids(descs@.subrange(0, i as int), p),
            decreases descs@.len() - i,
        {
            let n = descs[i];
            proof {
                let w = descs@.subrange(0, i + 1);
                assert(w.drop_last() =~= descs@.subrange(0, i as int));
                assert(w.last() == n);
            }
            match &self.nodes[n.0].kind {
                NodeKind::Element(el) => {
                    if crate::text::str_eq(el.tag.as_str(), tag) {
                        out.push(n);
                    }
                },
                _ => {},
            }
            i += 1;
        }
        proof { assert(descs@.subrange(0, descs@.len() as int) =~= descs@); }
        out
    }

    /// Returns all element descendants with a given class name, in document order.
    pub fn get_elements_by_class_name(&self, root: NodeId, class: &str) -> (r: Vec<NodeId>)
        requires
            self.wf(),
            self.valid(root),
        ensures
            r@ == keep_ids(self.descendants_of(root), |n: NodeId| self.has_class_spec(n, class@)),
    {
        let ghost p = |n: NodeId| self.has_class_spec(n, class@);
        let descs = self.descendants(root);
        proof { self.lemma_descendants_valid(root); }
        let mut out: Vec<NodeId> = Vec::new();
        let mut i: usize = 0;
        while i < descs.len()
            invariant
                p == (|n: NodeId| self.has_class_spec(n, class@)),
                self.wf(),
                descs@ == self.descendants_of(root),
                forall|k: int| 0 <= k < descs@.len() ==> self.valid(#[trigger] descs@[k]),
                i <= descs@.len(),
                out@ == keep_ids(descs@.subrange(0, i as int), p),
            decreases descs@.len() - i,
        {
            let n = descs[i];
            proof {
                let w = descs@.subrange(0, i + 1);
                assert(w.drop_last() =~= descs@.subrange(0, i as int));
                assert(w.last() == n);
            }
            match &self.nodes[n.0].kind {
                NodeKind::Element(el) => {
                    if el.has_class(class) {
                        out.push(n);
                    }
                },
                _ => {},
            }
            i += 1;
        }
        proof { assert(descs@.subrange(0, descs@.len() as int) =~= descs@); }
        out
    }

    /// The first descendant (document order) matching an already parsed selector.
    pub fn query_selector_parsed(&self, root: NodeId, sel: &SelectorList) -> (r: Option<NodeId>)
        requires
            self.wf(),
            self.valid(root),
        ensures
            r == first_id(self.descendants_of(root), |n: NodeId| self.list_matches(n, *sel)),
    {
        let ghost p = |n: NodeId| self.list_matches(n, *sel);
        let descs = self.descendants(root);
        proof {
            self.lemma_descendants_valid(root);
            assert(descs@.skip(0) =~= descs@);
        }
        let mut i: usize = 0;
        while i < descs.len()
            invariant
                p == (|n: NodeId| self.list_matches(n, *sel)),
                self.wf(),
                descs@ == self.descendants_of(root),
                forall|k: int| 0 <= k < descs@.len() ==> self.valid(#[trigger] descs@[k]),
                i <= descs@.len(),
                first_id(descs@, p) == first_id(descs@.skip(i as int), p),
            decreases descs@.len() - i,
        {
            let n = descs[i];
            proof {
                assert(descs@.skip(i as int)[0] == n);
                assert(descs@.skip(i as int).drop_first() =~= descs@.skip(i + 1));
            }
            if self.matches_selector(n, sel) {
                return Some(n);
            }
            i += 1;
        }
        None
    }

    /// All descendants (document order) matching an already parsed selector.
    pub fn query_selector_all_parsed(&self, root: NodeId, sel: &SelectorList) -> (r: Vec<NodeId>)
        requires
            self.wf(),
            self.valid(root),
        ensures
            r@ == keep_ids(self.descendants_of(root), |n: NodeId| self.list_matches(n, *sel)),
    {
        let ghost p = |n: NodeId| self.list_matches(n, *sel);
        let descs = self.descendants(root);
        proof { self.lemma_descendants_valid(root); }
        let mut out: Vec<NodeId> = Vec::new();
        let mut i: usize = 0;
        while i < descs.len()
            invariant
                p == (|n: NodeId| self.list_matches(n, *sel)),
                self.wf(),
                descs@ == self.descendants_of(root),
                forall|k: int| 0 <= k < descs@.len() ==> self.valid(#[trigger] descs@[k]),
                i <= descs@.len(),
                out@ == keep_ids(descs@.subrange(0, i as int), p),
            decreases descs@.len() - i,
        {
            let n = descs[i];
            proof {
                let w = descs@.subrange(0, i + 1);
                assert(w.drop_last() =~= descs@.subrange(0, i as int));
                assert(w.last() == n);
            }
            if self.matches_selector(n, sel) {
                out.push(n);
            }
            i += 1;
        }
        proof { assert(descs@.subrange(0, descs@.len() as int) =~= descs@); }
        out
    }

    /// Returns the first descendant matching a CSS selector; `None` also when the
    /// selector does not parse.
    pub fn query_selector(&self, root: NodeId, selector_str: &str) -> (r: Option<NodeId>)
        requires
            self.wf(),
            self.valid(root),
        ensures
            r matches Some(n) ==> self.descendants_of(root).contains(n),
            selector_str@.len() == 0 ==> r is None,
            match sel_list(selector_str@) {
                None => r is None,
                Some(v) => forall|l: SelectorList| #[trigger] list_view(l) == v
                    ==> r == first_id(self.descendants_of(root), |n: NodeId| self.list_matches(n, l)),
            },
    {
        let sel = parse_selector(selector_str)?;
        let r = self.query_selector_parsed(root, &sel);
        proof {
            assert forall|l: SelectorList| #[trigger] list_view(l) == list_view(sel) implies
                r == first_id(self.descendants_of(root), |n: NodeId| self.list_matches(n, l)) by {
                assert forall|n: NodeId| self.list_matches(n, l) == self.list_matches(n, sel) by {
                    self.law_matching_follows_view(n, l, sel);
                }
                assert((|n: NodeId| self.list_matches(n, l)) =~= (|n: NodeId| self.list_matches(n, sel)));
            }
        }
        proof { self.lemma_first_id_in(self.descendants_of(root), |n: NodeId| self.list_matches(n, sel)); }
        r
    }

    /// Returns all descendants matching a CSS selector (none when it does not parse).
    pub fn query_selector_all(&self, root: NodeId, selector_str: &str) -> (r: Vec<NodeId>)
        requires
            self.wf(),
            self.valid(root),
        ensures
            forall|k: int| 0 <= k < r@.len() ==> self.descendants_of(root).contains(#[trigger] r@[k]),
            selector_str@.len() == 0 ==> r@.len() == 0,
            match sel_list(selector_str@) {
                None => r@.len() == 0,
                Some(v) => forall|l: SelectorList| #[trigger] list_view(l) == v
                    ==> r@ == keep_ids(self.descendants_of(root), |n: NodeId| self.list_matches(n, l)),
            },
    {
        match parse_selector(selector_str) {
            Some(sel) => {
                let r = self.query_selector_all_parsed(root, &sel);
                proof {
                    assert forall|l: SelectorList| #[trigger] list_view(l) == list_view(sel) implies
                        r@ == keep_ids(self.descendants_of(root), |n: NodeId| self.list_matches(n, l)) by {
                        assert forall|n: NodeId| self.list_matches(n, l) == self.list_matches(n, sel) by {
                            self.law_matching_follows_view(n, l, sel);
                        }
                        assert((|n: NodeId| self.list_matches(n, l)) =~= (|n: NodeId| self.list_matches(n, sel)));
                    }
                }
                proof { self.lemma_keep_ids_in(self.descendants_of(root), |n: NodeId| self.list_matches(n, sel)); }
                r
            },
            None => Vec::new(),
        }
    }

    /// A single-element query gives the first match of the all-elements query:
    /// for every selector list, the first matching descendant is the first of the
    /// matching descendants (none when there are none).
    pub proof fn law_query_is_first_of_all(&self, root: NodeId, l: SelectorList)
        ensures
            first_id(self.descendants_of(root), |n: NodeId| self.list_matches(n, l)) == ({
                let all = keep_ids(self.descendants_of(root), |n: NodeId| self.list_matches(n, l));
                if all.len() > 0 { Some(all[0]) } else { None }
            }),
    {
        lemma_first_is_first_kept(self.descendants_of(root), |n: NodeId| self.list_matches(n, l));
    }

    proof fn lemma_first_id_in(&self, s: Seq<NodeId>, p: spec_fn(NodeId) -> bool)
        ensures
            first_id(s, p) matches Some(n) ==> s.contains(n),
        decreases s.len(),
    {
        if s.len() > 0 && !p(s[0]) {
            self.lemma_first_id_in(s.drop_first(), p);
            if let Some(n) = first_id(s.drop_first(), p) {
                let k = choose|k: int| 0 <= k < s.drop_first().len() && s.drop_first()[k] == n;
                assert(s[k + 1] == n);
            }
        } else if s.len() > 0 {
            assert(s[0] == s[0]);
        }
    }

    proof fn lemma_keep_ids_in(&self, s: Seq<NodeId>, p: spec_fn(NodeId) -> bool)
        ensures
            forall|k: int| 0 <= k < keep_ids(s, p).len() ==> s.contains(#[trigger] keep_ids(s, p)[k]),
        decreases s.len(),
    {
        if s.len() > 0 {
            self.lemma_keep_ids_in(s.drop_last(), p);
            let r = keep_ids(s.drop_last(), p);
            assert forall|k: int| 0 <= k < keep_ids(s, p).len() implies s.contains(#[trigger] keep_ids(s, p)[k]) by {
                if k < r.len() {
                    assert(keep_ids(s, p)[k] == r[k]);
                    assert(s.drop_last().contains(r[k]));
                    let j = choose|j: int| 0 <= j < s.drop_last().len() && s.drop_last()[j] == r[k];
                    assert(s[j] == r[k]);
                } else {
                    assert(keep_ids(s, p)[k] == s.last());
                    assert(s[s.len() - 1] == s.last());
                }
            }
        }
    }

    /// Every descendant of a valid node is valid.
    pub proof fn lemma_descendants_valid(&self, root: NodeId)
        requires
            self.wf(),
            self.valid(root),
        ensures
            forall|k: int| 0 <= k < self.descendants_of(root).len() ==> self.valid(#[trigger] self.descendants_of(root)[k]),
    {
        self.lemma_kids_valid(root);
        self.lemma_dfs_valid(self.kids@[root.0 as int], self.nodes@.len() as nat);
    }
}

} // verus!
