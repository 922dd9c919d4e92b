//! Attribute, class-list and text content operations on DOM nodes.

use vstd::prelude::*;
use super::Document;
use super::node::{NodeId, NodeData, NodeKind, ElementData};
use crate::text::{str_eq, push_str};

verus! {

/// The attributes of an element, as (name, value) character sequences.
pub open spec fn attrs_view(a: Seq<(String, String)>) -> Seq<(Seq<char>, Seq<char>)> {
    Seq::new(a.len(), |i: int| (a[i].0@, a[i].1@))
}

/// The class names of an element, as character sequences.
pub open spec fn strs_view(a: Seq<String>) -> Seq<Seq<char>> {
    Seq::new(a.len(), |i: int| a[i]@)
}

/// `k` is the position of the first attribute named `name`.
pub open spec fn is_first_attr(v: Seq<(Seq<char>, Seq<char>)>, name: Seq<char>, k: int) -> bool {
    &&& 0 <= k < v.len()
    &&& v[k].0 == name
    &&& forall|j: int| 0 <= j < k ==> v[j].0 != name
}

/// The position of the first attribute named `name`, or -1.
pub open spec fn first_attr(v: Seq<(Seq<char>, Seq<char>)>, name: Seq<char>) -> int {
    if exists|k: int| is_first_attr(v, name, k) {
        choose|k: int| is_first_attr(v, name, k)
    } else {
        -1
    }
}

/// The value of the first attribute named `name`.
pub open spec fn attr_lookup(v: Seq<(Seq<char>, Seq<char>)>, name: Seq<char>) -> Option<Seq<char>> {
    let k = first_attr(v, name);
    if k >= 0 { Some(v[k].1) } else { None }
}

/// The attributes after setting `name` to `value`: the first attribute of that name
/// gets the new value, or the pair is appended.
pub open spec fn attr_set(v: Seq<(Seq<char>, Seq<char>)>, name: Seq<char>, value: Seq<char>) -> Seq<(Seq<char>, Seq<char>)> {
    let k = first_attr(v, name);
    if k >= 0 { v.update(k, (name, value)) } else { v.push((name, value)) }
}

/// The attributes without any named `name`, in order.
pub open spec fn attr_remove(v: Seq<(Seq<char>, Seq<char>)>, name: Seq<char>) -> Seq<(Seq<char>, Seq<char>)>
    decreases v.len(),
{
    if v.len() == 0 {
        v
    } else {
        let r = attr_remove(v.drop_last(), name);
        if v.last().0 == name { r } else { r.push(v.last()) }
    }
}

/// The names in `v` other than `x`, in order.
pub open spec fn strs_remove(v: Seq<Seq<char>>, x: Seq<char>) -> Seq<Seq<char>>
    decreases v.len(),
{
    if v.len() == 0 {
        v
    } else {
        let r = strs_remove(v.drop_last(), x);
        if v.last() == x { r } else { r.push(v.last()) }
    }
}

/// The pieces of `s` between single spaces, empty pieces dropped; the second
/// component is the piece still being read.
pub open spec fn split_state(s: Seq<char>) -> (Seq<Seq<char>>, Seq<char>)
    decreases s.len(),
{
    if s.len() == 0 {
        (Seq::empty(), Seq::empty())
    } else {
        let (done, cur) = split_state(s.drop_last());
        if s.last() == ' ' {
            (if cur.len() > 0 { done.push(cur) } else { done }, Seq::empty())
        } else {
            (done, cur.push(s.last()))
        }
    }
}

/// The non-empty pieces of `s` between single spaces.
pub open spec fn split_classes(s: Seq<char>) -> Seq<Seq<char>> {
    let (done, cur) = split_state(s);
    if cur.len() > 0 { done.push(cur) } else { done }
}

/// The class names joined by single spaces.
pub open spec fn join_classes(v: Seq<Seq<char>>) -> Seq<char>
    decreases v.len(),
{
    if v.len() == 0 {
        Seq::empty()
    } else if v.len() == 1 {
        v[0]
    } else {
        join_classes(v.drop_last()) + seq![' '] + v.last()
    }
}

/// The attributes once the "class" attribute mirrors the class list `cls`.
pub open spec fn synced_attrs(v: Seq<(Seq<char>, Seq<char>)>, cls: Seq<Seq<char>>) -> Seq<(Seq<char>, Seq<char>)> {
    if cls.len() == 0 {
        attr_remove(v, "class"@)
    } else {
        attr_set(v, "class"@, join_classes(cls))
    }
}

/// The element payload of a node, if it is an element.
pub open spec fn element_of(n: NodeData) -> Option<ElementData> {
    match n.kind {
        NodeKind::Element(el) => Some(el),
        _ => None,
    }
}

/// `b` is `a` with only the element payload possibly changed.
pub open spec fn same_links(a: NodeData, b: NodeData) -> bool {
    &&& a.parent == b.parent
    &&& a.first_child == b.first_child
    &&& a.last_child == b.last_child
    &&& a.prev_sibling == b.prev_sibling
    &&& a.next_sibling == b.next_sibling
    &&& a.event_listeners == b.event_listeners
    &&& a.freed == b.freed
}

proof fn lemma_first_attr(v: Seq<(Seq<char>, Seq<char>)>, name: Seq<char>, k: int)
    requires
        is_first_attr(v, name, k),
    ensures
        first_attr(v, name) == k,
{
    let c = choose|k: int| is_first_attr(v, name, k);
    assert(is_first_attr(v, name, c));
    if c < k {
        assert(v[c].0 != name);
    }
    if k < c {
        assert(v[k].0 != name);
    }
}

proof fn lemma_no_attr(v: Seq<(Seq<char>, Seq<char>)>, name: Seq<char>)
    requires
        forall|j: int| 0 <= j < v.len() ==> v[j].0 != name,
    ensures
        first_attr(v, name) == -1,
{
    if exists|k: int| is_first_attr(v, name, k) {
        let c = choose|k: int| is_first_attr(v, name, k);
        assert(v[c].0 == name);
    }
}

impl ElementData {
    /// The position of the first attribute named `name`.
    pub fn attr_position(&self, name: &str) -> (r: Option<usize>)
        ensures
            r matches Some(k) ==> k as int == first_attr(attrs_view(self.attributes@), name@),
            r is None ==> first_attr(attrs_view(self.attributes@), name@) == -1,
    {
        let ghost v = attrs_view(self.attributes@);
        let mut i: usize = 0;
        while i < self.attributes.len()
            invariant
                v == attrs_view(self.attributes@),
                i <= v.len(),
                forall|j: int| 0 <= j < i ==> v[j].0 != name@,
            decreases self.attributes@.len() - i,
        {
            if str_eq(self.attributes[i].0.as_str(), name) {
                proof { lemma_first_attr(v, name@, i as int); }
                return Some(i);
            }
            i += 1;
        }
        proof { lemma_no_attr(v, name@); }
        None
    }

    /// Sets attribute `name` to `value` in the attribute list only.
    pub fn put_attr(&mut self, name: &str, value: &str)
        ensures
            attrs_view(final(self).attributes@) == attr_set(attrs_view(old(self).attributes@), name@, value@),
            final(self).tag == old(self).tag,
            final(self).id == old(self).id,
            final(self).class_list == old(self).class_list,
            final(self).self_closing == old(self).self_closing,
    {
        let ghost v = attrs_view(self.attributes@);
        match self.attr_position(name) {
            Some(k) => {
                self.attributes.set(k, (name.to_owned(), value.to_owned()));
                proof { assert(attrs_view(self.attributes@) =~= v.update(k as int, (name@, value@))); }
            },
            None => {
                self.attributes.push((name.to_owned(), value.to_owned()));
                proof { assert(attrs_view(self.attributes@) =~= v.push((name@, value@))); }
            },
        }
    }

    /// Removes every attribute named `name` from the attribute list only.
    pub fn drop_attr(&mut self, name: &str)
        ensures
            attrs_view(final(self).attributes@) == attr_remove(attrs_view(old(self).attributes@), name@),
            final(self).tag == old(self).tag,
            final(self).id == old(self).id,
            final(self).class_list == old(self).class_list,
            final(self).self_closing == old(self).self_closing,
    {
        let ghost v = attrs_view(self.attributes@);
        let mut kept: Vec<(String, String)> = Vec::new();
        let mut i: usize = 0;
        while i < self.attributes.len()
            invariant
                v == attrs_view(self.attributes@),
                i <= v.len(),
                attrs_view(kept@) == attr_remove(v.subrange(0, i as int), name@),
            decreases self.attributes@.len() - i,
        {
            proof { assert(v.subrange(0, i + 1).drop_last() =~= v.subrange(0, i as int)); }
            if !str_eq(self.attributes[i].0.as_str(), name) {
                let k = self.attributes[i].0.clone();
                let val = self.attributes[i].1.clone();
                let ghost before = kept@;
                kept.push((k, val));
                proof { assert(attrs_view(kept@) =~= attrs_view(before).push(v[i as int])); }
            }
            i += 1;
        }
        proof { assert(v.subrange(0, v.len() as int) =~= v); }
        self.attributes = kept;
    }

    /// The value of the first attribute named `name`.
    pub fn attr_value(&self, name: &str) -> (r: Option<&str>)
        ensures
            r matches Some(s) ==> attr_lookup(attrs_view(self.attributes@), name@) == Some(s@),
            r is None ==> attr_lookup(attrs_view(self.attributes@), name@) is None,
    {
        match self.attr_position(name) {
            Some(k) => Some(self.attributes[k].1.as_str()),
            None => None,
        }
    }

    /// The class list joined by single spaces, or `None` when it is empty.
    pub fn class_string(&self) -> (r: Option<String>)
        ensures
            strs_view(self.class_list@).len() == 0 ==> r is None,
            strs_view(self.class_list@).len() > 0 ==> (r matches Some(s) && s@ == join_classes(strs_view(self.class_list@))),
    {
        let ghost v = strs_view(self.class_list@);
        if self.class_list.len() == 0 {
            return None;
        }
        let mut s = String::new();
        let mut i: usize = 0;
        while i < self.class_list.len()
            invariant
                v == strs_view(self.class_list@),
                i <= v.len(),
                v.len() > 0,
                i > 0 ==> s@ == join_classes(v.subrange(0, i as int)),
                i == 0 ==> s@.len() == 0,
            decreases self.class_list@.len() - i,
        {
            proof {
                let w = v.subrange(0, i + 1);
                assert(w.drop_last() =~= v.subrange(0, i as int));
                assert(w.last() == v[i as int]);
            }
            if i > 0 {
                s.push(' ');
            }
            push_str(&mut s, self.class_list[i].as_str());
            proof {
                if i == 0 {
                    assert(s@ =~= v[0]);
                }
            }
            i += 1;
        }
        proof { assert(v.subrange(0, v.len() as int) =~= v); }
        Some(s)
    }

    /// Makes the "class" attribute mirror the class list.
    pub fn sync_class(&mut self)
        ensures
            attrs_view(final(self).attributes@) == synced_attrs(attrs_view(old(self).attributes@), strs_view(old(self).class_list@)),
            final(self).tag == old(self).tag,
            final(self).id == old(self).id,
            final(self).class_list == old(self).class_list,
            final(self).self_closing == old(self).self_closing,
    {
        match self.class_string() {
            Some(val) => self.put_attr("class", val.as_str()),
            None => self.drop_attr("class"),
        }
    }

    /// Whether the class list holds `class`.
    pub fn has_class(&self, class: &str) -> (r: bool)
        ensures
            r == strs_view(self.class_list@).contains(class@),
    {
        let ghost v = strs_view(self.class_list@);
        let mut i: usize = 0;
        while i < self.class_list.len()
            invariant
                v == strs_view(self.class_list@),
                i <= v.len(),
                forall|j: int| 0 <= j < i ==> v[j] != class@,
            decreases self.class_list@.len() - i,
        {
            if str_eq(self.class_list[i].as_str(), class) {
                proof { assert(v[i as int] == class@); }
                return true;
            }
            i += 1;
        }
        false
    }

    /// Removes every occurrence of `class` from the class list only.
    pub fn drop_class(&mut self, class: &str)
        ensures
            strs_view(final(self).class_list@) == strs_remove(strs_view(old(self).class_list@), class@),
            final(self).tag == old(self).tag,
            final(self).id == old(self).id,
            final(self).attributes == old(self).attributes,
            final(self).self_closing == old(self).self_closing,
    {
        let ghost v = strs_view(self.class_list@);
        let mut kept: Vec<String> = Vec::new();
        let mut i: usize = 0;
        while i < self.class_list.len()
            invariant
                v == strs_view(self.class_list@),
                i <= v.len(),
                strs_view(kept@) == strs_remove(v.subrange(0, i as int), class@),
            decreases self.class_list@.len() - i,
        {
            proof { assert(v.subrange(0, i + 1).drop_last() =~= v.subrange(0, i as int)); }
            if !str_eq(self.class_list[i].as_str(), class) {
                let c = self.class_list[i].clone();
                let ghost before = kept@;
                kept.push(c);
                proof { assert(strs_view(kept@) =~= strs_view(before).push(v[i as int])); }
            }
            i += 1;
        }
        proof { assert(v.subrange(0, v.len() as int) =~= v); }
        self.class_list = kept;
    }
}

/// The non-empty pieces of `value` between single spaces.
pub fn split_on_spaces(value: &str) -> (r: Vec<String>)
    ensures
        strs_view(r@) == split_classes(value@),
{
    let cs = crate::text::chars_of(value);
    let mut out: Vec<String> = Vec::new();
    let mut cur = String::new();
    let mut i: usize = 0;
    while i < cs.len()
        invariant
            cs@ == value@,
            i <= cs@.len(),
            (strs_view(out@), cur@) == split_state(cs@.subrange(0, i as int)),
        decreases cs@.len() - i,
    {
        proof { assert(cs@.subrange(0, i + 1).drop_last() =~= cs@.subrange(0, i as int)); }
        if cs[i] == ' ' {
            if !cur.as_str().is_empty() {
                let ghost before = out@;
                let piece = cur;
                
                out.push(piece);
                proof { assert(strs_view(out@) =~= strs_view(before).push(piece@)); }
                cur = String::new();
            } else {
                cur = String::new();
            }
        } else {
            cur.push(cs[i]);
        }
        i += 1;
    }
    proof { assert(cs@.subrange(0, cs@.len() as int) =~= cs@); }
    if !cur.as_str().is_empty() {
        let ghost before = out@;
        let piece = cur;
        out.push(piece);
        proof { assert(strs_view(out@) =~= strs_view(before).push(piece@)); }
    }
    out
}


/// The id index without the entry of an element's old id.
pub open spec fn index_without(m: Map<Seq<char>, NodeId>, old_id: Option<String>) -> Map<Seq<char>, NodeId> {
    match old_id {
        Some(s) => m.remove(s@),
        None => m,
    }
}

impl Document {
    /// `self` is `before` with at most the payload of node `id` and the id index changed.
    pub open spec fn kind_changed_only(&self, before: Document, id: NodeId) -> bool {
        &&& self.nodes@.len() == before.nodes@.len()
        &&& forall|j: int| 0 <= j < before.nodes@.len() && j != id.0 ==> #[trigger] self.nodes@[j] == before.nodes@[j]
        &&& same_links(self.nodes@[id.0 as int], before.nodes@[id.0 as int])
        &&& self.kids == before.kids
        &&& self.root == before.root
        &&& self.free_list == before.free_list
        &&& self.mutation_observers == before.mutation_observers
    }

    /// Takes the payload of node `id` out of the arena, leaving a placeholder.
    fn take_kind(&mut self, id: NodeId) -> (k: NodeKind)
        requires
            old(self).wf(),
            old(self).valid(id),
        ensures
            k == old(self).nodes@[id.0 as int].kind,
            final(self).wf(),
            final(self).kind_changed_only(*old(self), id),
            final(self).id_index == old(self).id_index,
    {
        let ghost old_self = *self;
        let mut k = NodeKind::DocumentFragment;
        std::mem::swap(&mut k, &mut self.nodes[id.0].kind);
        proof { Document::lemma_wf_same_links(old_self, *self); }
        k
    }

    /// Puts a payload back into node `id`.
    fn put_kind(&mut self, id: NodeId, k: NodeKind)
        requires
            old(self).wf(),
            old(self).valid(id),
        ensures
            final(self).nodes@[id.0 as int].kind == k,
            final(self).wf(),
            final(self).kind_changed_only(*old(self), id),
            final(self).id_index == old(self).id_index,
    {
        let ghost old_self = *self;
        self.nodes[id.0].kind = k;
        proof { Document::lemma_wf_same_links(old_self, *self); }
    }

    /// Returns the tag name of an element node.
    pub fn tag_name(&self, id: NodeId) -> (r: Option<&str>)
        requires
            self.valid(id),
        ensures
            match element_of(self.nodes@[id.0 as int]) {
                Some(el) => r matches Some(t) && t@ == el.tag@,
                None => r is None,
            },
    {
        match &self.nodes[id.0].kind {
            NodeKind::Element(el) => Some(el.tag.as_str()),
            _ => None,
        }
    }

    /// Gets the value of an attribute on an element.
    pub fn get_attribute(&self, id: NodeId, name: &str) -> (r: Option<&str>)
        requires
            self.valid(id),
        ensures
            match element_of(self.nodes@[id.0 as int]) {
                Some(el) => match attr_lookup(attrs_view(el.attributes@), name@) {
                    Some(v) => r matches Some(t) && t@ == v,
                    None => r is None,
                },
                None => r is None,
            },
    {
        match &self.nodes[id.0].kind {
            NodeKind::Element(el) => el.attr_value(name),
            _ => None,
        }
    }

    /// Checks whether an element has a given attribute.
    pub fn has_attribute(&self, id: NodeId, name: &str) -> (r: bool)
        requires
            self.valid(id),
        ensures
            r == (match element_of(self.nodes@[id.0 as int]) {
                Some(el) => attr_lookup(attrs_view(el.attributes@), name@) is Some,
                None => false,
            }),
    {
        self.get_attribute(id, name).is_some()
    }

    /// Sets an attribute on an element. Setting "id" re-indexes the element under
    /// the new id; setting "class" replaces the class list by the space-separated names.
    pub fn set_attribute(&mut self, id: NodeId, name: &str, value: &str)
        requires
            old(self).wf(),
            old(self).valid(id),
        ensures
            final(self).wf(),
            final(self).kind_changed_only(*old(self), id),
            match element_of(old(self).nodes@[id.0 as int]) {
                None => {
                    &&& final(self).nodes@[id.0 as int] == old(self).nodes@[id.0 as int]
                    &&& final(self).id_index == old(self).id_index
                },
                Some(el) => {
                    &&& element_of(final(self).nodes@[id.0 as int]) is Some
                    &&& {
                        let el2 = element_of(final(self).nodes@[id.0 as int])->0;
                        &&& el2.tag == el.tag
                        &&& el2.self_closing == el.self_closing
                        &&& attrs_view(el2.attributes@) == attr_set(attrs_view(el.attributes@), name@, value@)
                        &&& (name@ == "id"@ ==> {
                            &&& el2.id matches Some(v) && v@ == value@
                            &&& final(self).id_index@ == index_without(old(self).id_index@, el.id).insert(value@, id)
                        })
                        &&& (name@ != "id"@ ==> el2.id == el.id && final(self).id_index == old(self).id_index)
                        &&& (name@ == "class"@ ==> strs_view(el2.class_list@) == split_classes(value@))
                        &&& (name@ != "class"@ ==> el2.class_list == el.class_list)
                    }
                },
            },
    {
        let kind = self.take_kind(id);
        let ghost taken = *self;
        match kind {
            NodeKind::Element(mut el) => {
                if str_eq(name, "id") {
                    match &el.id {
                        Some(old_id) => self.id_index.remove(old_id.as_str()),
                        None => {},
                    }
                    el.id = Some(value.to_owned());
                    self.id_index.insert(value.to_owned(), id);
                    proof { Document::lemma_wf_same_links(taken, *self); }
                }
                if str_eq(name, "class") {
                    el.class_list = split_on_spaces(value);
                }
                el.put_attr(name, value);
                self.put_kind(id, NodeKind::Element(el));
            },
            other => {
                self.put_kind(id, other);
            },
        }
    }

    /// Removes an attribute from an element. Removing "id" drops the element from the
    /// id index; removing "class" empties the class list.
    pub fn remove_attribute(&mut self, id: NodeId, name: &str)
        requires
            old(self).wf(),
            old(self).valid(id),
        ensures
            final(self).wf(),
            final(self).kind_changed_only(*old(self), id),
            match element_of(old(self).nodes@[id.0 as int]) {
                None => {
                    &&& final(self).nodes@[id.0 as int] == old(self).nodes@[id.0 as int]
                    &&& final(self).id_index == old(self).id_index
                },
                Some(el) => {
                    &&& element_of(final(self).nodes@[id.0 as int]) is Some
                    &&& {
                        let el2 = element_of(final(self).nodes@[id.0 as int])->0;
                        &&& el2.tag == el.tag
                        &&& el2.self_closing == el.self_closing
                        &&& attrs_view(el2.attributes@) == attr_remove(attrs_view(el.attributes@), name@)
                        &&& (name@ == "id"@ ==> el2.id is None && final(self).id_index@ == index_without(old(self).id_index@, el.id))
                        &&& (name@ != "id"@ ==> el2.id == el.id && final(self).id_index == old(self).id_index)
                        &&& (name@ == "class"@ ==> el2.class_list@.len() == 0)
                        &&& (name@ != "class"@ ==> el2.class_list == el.class_list)
                    }
                },
            },
    {
        let kind = self.take_kind(id);
        let ghost taken = *self;
        match kind {
            NodeKind::Element(mut el) => {
                if str_eq(name, "id") {
                    match &el.id {
                        Some(old_id) => self.id_index.remove(old_id.as_str()),
                        None => {},
                    }
                    el.id = None;
                    proof { Document::lemma_wf_same_links(taken, *self); }
                }
                if str_eq(name, "class") {
                    el.class_list = Vec::new();
                }
                el.drop_attr(name);
                self.put_kind(id, NodeKind::Element(el));
            },
            other => {
                self.put_kind(id, other);
            },
        }
    }

    /// Checks whether the element's class list contains a given class.
    pub fn class_list_contains(&self, id: NodeId, class: &str) -> (r: bool)
        requires
            self.valid(id),
        ensures
            r == (match element_of(self.nodes@[id.0 as int]) {
                Some(el) => strs_view(el.class_list@).contains(class@),
                None => false,
            }),
    {
        match &self.nodes[id.0].kind {
            NodeKind::Element(el) => el.has_class(class),
            _ => false,
        }
    }

    /// Adds a class to the element's class list (no effect if already present) and
    /// mirrors the list into the "class" attribute.
    pub fn class_list_add(&mut self, id: NodeId, class: &str)
        requires
            old(self).wf(),
            old(self).valid(id),
        ensures
            final(self).wf(),
            final(self).kind_changed_only(*old(self), id),
            final(self).id_index == old(self).id_index,
            match element_of(old(self).nodes@[id.0 as int]) {
                Some(el) if !strs_view(el.class_list@).contains(class@) => {
                    &&& element_of(final(self).nodes@[id.0 as int]) is Some
                    &&& {
                        let el2 = element_of(final(self).nodes@[id.0 as int])->0;
                        &&& el2.tag == el.tag
                        &&& el2.id == el.id
                        &&& el2.self_closing == el.self_closing
                        &&& strs_view(el2.class_list@) == strs_view(el.class_list@).push(class@)
                        &&& attrs_view(el2.attributes@) == synced_attrs(attrs_view(el.attributes@), strs_view(el2.class_list@))
                    }
                },
                _ => final(self).nodes@[id.0 as int] == old(self).nodes@[id.0 as int],
            },
    {
        let kind = self.take_kind(id);
        match kind {
            NodeKind::Element(mut el) => {
                if !el.has_class(class) {
                    let ghost before = strs_view(el.class_list@);
                    el.class_list.push(class.to_owned());
                    proof { assert(strs_view(el.class_list@) =~= before.push(class@)); }
                    el.sync_class();
                }
                self.put_kind(id, NodeKind::Element(el));
            },
            other => {
                self.put_kind(id, other);
            },
        }
    }

    /// Removes a class from the element's class list and mirrors the list into the
    /// "class" attribute.
    pub fn class_list_remove(&mut self, id: NodeId, class: &str)
        requires
            old(self).wf(),
            old(self).valid(id),
        ensures
            final(self).wf(),
            final(self).kind_changed_only(*old(self), id),
            final(self).id_index == old(self).id_index,
            match element_of(old(self).nodes@[id.0 as int]) {
                Some(el) => {
                    &&& element_of(final(self).nodes@[id.0 as int]) is Some
                    &&& {
                        let el2 = element_of(final(self).nodes@[id.0 as int])->0;
                        &&& el2.tag == el.tag
                        &&& el2.id == el.id
                        &&& el2.self_closing == el.self_closing
                        &&& strs_view(el2.class_list@) == strs_remove(strs_view(el.class_list@), class@)
                        &&& attrs_view(el2.attributes@) == synced_attrs(attrs_view(el.attributes@), strs_view(el2.class_list@))
                    }
                },
                None => final(self).nodes@[id.0 as int] == old(self).nodes@[id.0 as int],
            },
    {
        let kind = self.take_kind(id);
        match kind {
            NodeKind::Element(mut el) => {
                el.drop_class(class);
                el.sync_class();
                self.put_kind(id, NodeKind::Element(el));
            },
            other => {
                self.put_kind(id, other);
            },
        }
    }

    /// Toggles a class on the element. Returns whether the class is now present
    /// (`false` for a node that is not an element, which is left unchanged).
    pub fn class_list_toggle(&mut self, id: NodeId, class: &str) -> (r: bool)
        requires
            old(self).wf(),
            old(self).valid(id),
        ensures
            final(self).wf(),
            final(self).kind_changed_only(*old(self), id),
            final(self).id_index == old(self).id_index,
            r == (match element_of(old(self).nodes@[id.0 as int]) {
                Some(el) => !strs_view(el.class_list@).contains(class@),
                None => false,
            }),
            match element_of(old(self).nodes@[id.0 as int]) {
                Some(el) => {
                    &&& element_of(final(self).nodes@[id.0 as int]) is Some
                    &&& {
                        let el2 = element_of(final(self).nodes@[id.0 as int])->0;
                        &&& el2.tag == el.tag
                        &&& el2.id == el.id
                        &&& el2.self_closing == el.self_closing
                        &&& strs_view(el2.class_list@) == (if r {
                            strs_view(el.class_list@).push(class@)
                        } else {
                            strs_remove(strs_view(el.class_list@), class@)
                        })
                        &&& attrs_view(el2.attributes@) == synced_attrs(attrs_view(el.attributes@), strs_view(el2.class_list@))
                    }
                },
                None => final(self).nodes@[id.0 as int] == old(self).nodes@[id.0 as int],
            },
    {
        let is_element = match &self.nodes[id.0].kind {
            NodeKind::Element(_) => true,
            _ => false,
        };
        if !is_element {
            return false;
        }
        if self.class_list_contains(id, class) {
            self.class_list_remove(id, class);
            return false;
        }
        self.class_list_add(id, class);
        true
    }
}

} // verus!
