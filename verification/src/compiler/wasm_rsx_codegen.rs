//! WASM code for the RSX of a Component (`return (...)`): mount code that
//! creates the DOM once (`__volki_dom_create`, `__volki_dom_append`, ...) and
//! update code that refreshes each dynamic expression on every render through a
//! ref slot.

use vstd::prelude::*;
use super::parser::{RsxAttr, RsxAttrValue, RsxNode};
use super::codegen::{is_event_name, is_event_attr};
use super::routes::split_all;
use super::semantic::trim_text;
use crate::text::{push_str, push_decimal, decimal, chars_of, string_of, trim_str, str_eq};

verus! {

/// What the RSX of a Component compiles to.
#[derive(Debug)]
pub struct WasmRsxOutput {
    /// Code for the first render (DOM creation).
    pub mount_code: String,
    /// Code for every render (dynamic expression updates).
    pub update_code: String,
    /// Number of ref slots used for dynamic expressions.
    pub ref_slots_used: u32,
    pub needs_create: bool,
    pub needs_create_text: bool,
    pub needs_append: bool,
    pub needs_add_class: bool,
    pub needs_set_attr: bool,
    pub needs_set_text: bool,
    pub needs_mount_point: bool,
    pub needs_is_mounted: bool,
    pub needs_ref_get_i32: bool,
    pub needs_ref_set_i32: bool,
    pub needs_fmt_i32: bool,
    pub needs_fmt_f32: bool,
}

/// The state of the walk over the RSX: code so far, counters and the externs
/// the code needs.
pub struct WalkView {
    pub mount: Seq<char>,
    pub update: Seq<char>,
    pub nodes: nat,
    pub slots: nat,
    pub create: bool,
    pub create_text: bool,
    pub append: bool,
    pub add_class: bool,
    pub set_attr: bool,
    pub set_text: bool,
    pub ref_get: bool,
    pub ref_set: bool,
    pub fmt_i32: bool,
    pub fmt_f32: bool,
}

struct RsxWalker {
    mount: String,
    update: String,
    node_counter: u32,
    dyn_slot_counter: u32,
    ref_slot_offset: u32,
    needs_create: bool,
    needs_create_text: bool,
    needs_append: bool,
    needs_add_class: bool,
    needs_set_attr: bool,
    needs_set_text: bool,
    needs_ref_get_i32: bool,
    needs_ref_set_i32: bool,
    needs_fmt_i32: bool,
    needs_fmt_f32: bool,
}

impl RsxWalker {
    spec fn view(&self) -> WalkView {
        WalkView {
            mount: self.mount@,
            update: self.update@,
            nodes: self.node_counter as nat,
            slots: self.dyn_slot_counter as nat,
            create: self.needs_create,
            create_text: self.needs_create_text,
            append: self.needs_append,
            add_class: self.needs_add_class,
            set_attr: self.needs_set_attr,
            set_text: self.needs_set_text,
            ref_get: self.needs_ref_get_i32,
            ref_set: self.needs_ref_set_i32,
            fmt_i32: self.needs_fmt_i32,
            fmt_f32: self.needs_fmt_f32,
        }
    }
}

/// The length in bytes of a text.
pub open spec fn blen(s: Seq<char>) -> nat {
    vstd::utf8::encode_utf8(s).len()
}

/// The call that sets an attribute.
pub open spec fn set_attr_code(var: Seq<char>, name: Seq<char>, value: Seq<char>) -> Seq<char> {
    "__volki_dom_set_attr("@ + var + ", \""@ + name + "\".as_ptr() as i32, "@ + decimal(blen(name))
        + ", \""@ + value + "\".as_ptr() as i32, "@ + decimal(blen(value)) + ");\n"@
}

/// The call that adds a class.
pub open spec fn class_code(var: Seq<char>, cls: Seq<char>) -> Seq<char> {
    "__volki_dom_add_class("@ + var + ", \""@ + cls + "\".as_ptr() as i32, "@ + decimal(blen(cls)) + ");\n"@
}

/// The class calls for the non-empty pieces.
pub open spec fn classes_code(var: Seq<char>, pieces: Seq<Seq<char>>) -> Seq<char>
    decreases pieces.len(),
{
    if pieces.len() == 0 {
        Seq::empty()
    } else {
        classes_code(var, pieces.drop_last()) + if pieces.last().len() > 0 { class_code(var, pieces.last()) } else { Seq::empty() }
    }
}

/// One of the pieces is not empty.
pub open spec fn any_nonempty(pieces: Seq<Seq<char>>) -> bool {
    exists|k: int| 0 <= k < pieces.len() && (#[trigger] pieces[k]).len() > 0
}

/// The call that appends `var` to `parent`.
pub open spec fn append_code(parent: Seq<char>, var: Seq<char>) -> Seq<char> {
    "__volki_dom_append("@ + parent + ", "@ + var + ");\n"@
}

/// The walk after one attribute of the element `var`.
pub open spec fn attr_step(w: WalkView, var: Seq<char>, a: RsxAttr) -> WalkView {
    match a.value {
        RsxAttrValue::Literal(v) => if a.name@ == "class"@ {
            let pieces = split_all(v@, ' ');
            WalkView { mount: w.mount + classes_code(var, pieces), add_class: w.add_class || any_nonempty(pieces), ..w }
        } else {
            WalkView { mount: w.mount + set_attr_code(var, a.name@, v@), set_attr: true, ..w }
        },
        RsxAttrValue::Expr(e) => if is_event_name(a.name@) {
            WalkView { mount: w.mount + set_attr_code(var, "data-volki-"@ + a.name@, e@), set_attr: true, ..w }
        } else {
            w
        },
    }
}

/// The walk after the attributes of the element `var`.
pub open spec fn attrs_step(w: WalkView, var: Seq<char>, attrs: Seq<RsxAttr>) -> WalkView
    decreases attrs.len(),
{
    if attrs.len() == 0 {
        w
    } else {
        attr_step(attrs_step(w, var, attrs.drop_last()), var, attrs.last())
    }
}

/// The balanced `)` that closes a call whose arguments start at `i` (with
/// `depth` parentheses open), or -1.
pub open spec fn paren_close(t: Seq<char>, i: int, depth: int) -> int
    decreases t.len() - i,
{
    if i >= t.len() {
        -1
    } else if t[i] == '(' {
        paren_close(t, i + 1, depth + 1)
    } else if t[i] == ')' {
        if depth <= 1 { i } else { paren_close(t, i + 1, depth - 1) }
    } else {
        paren_close(t, i + 1, depth)
    }
}

/// The trimmed argument of `t` when it is a call `prefix ... )`.
pub open spec fn fmt_inner(t: Seq<char>, prefix: Seq<char>) -> Option<Seq<char>> {
    if !(t.len() >= prefix.len() && t.take(prefix.len() as int) == prefix) {
        None
    } else {
        let close = paren_close(t, prefix.len() as int, 1);
        if close < 0 { None } else { Some(trim_text(t.subrange(prefix.len() as int, close))) }
    }
}

/// The update code of a formatted number (`i32` or `f32`).
pub open spec fn fmt_code(handle: Seq<char>, inner: Seq<char>, slot: nat, float: bool) -> Seq<char> {
    let fb = "__rfb"@ + decimal(slot);
    let fl = "__rfl"@ + decimal(slot);
    "let "@ + fb + " = __volki_alloc(20);\n"@ + "let "@ + fl
        + (if float { " = __volki_state_fmt_f32("@ } else { " = __volki_state_fmt_i32("@ }) + inner + ", "@ + fb + ", 20);\n"@
        + "__volki_dom_set_text("@ + handle + ", "@ + fb + ", "@ + fl + ");\n"@
}

/// The walk after the update code of the dynamic expression `expr` whose text
/// node is `handle`.
pub open spec fn expr_update(w: WalkView, handle: Seq<char>, expr: Seq<char>, slot: nat) -> WalkView {
    let t = trim_text(expr);
    match fmt_inner(t, "state::fmt_i32("@) {
        Some(inner) => WalkView { update: w.update + fmt_code(handle, inner, slot, false), set_text: true, fmt_i32: true, ..w },
        None => match fmt_inner(t, "state::fmt_f32("@) {
            Some(inner) => WalkView { update: w.update + fmt_code(handle, inner, slot, true), set_text: true, fmt_f32: true, ..w },
            None => if t.len() >= 2 && t[0] == '"' && t[t.len() - 1] == '"' {
                let inner = t.subrange(1, t.len() - 1);
                WalkView {
                    update: w.update + "__volki_dom_set_text("@ + handle + ", \""@ + inner + "\".as_ptr() as i32, "@
                        + decimal(blen(inner)) + ");\n"@,
                    set_text: true,
                    ..w
                }
            } else {
                WalkView {
                    update: w.update + "__volki_dom_set_text("@ + handle + ", ("@ + t + ").as_ptr() as i32, ("@ + t
                        + ").len() as i32);\n"@,
                    set_text: true,
                    ..w
                }
            },
        },
    }
}

/// The walk after creating the element `tag` (its variable is `__rn<n>`).
pub open spec fn element_start(w: WalkView, tag: Seq<char>) -> WalkView {
    let var = "__rn"@ + decimal(w.nodes);
    WalkView {
        mount: w.mount + "let "@ + var + " = __volki_dom_create(\""@ + tag + "\".as_ptr() as i32, "@
            + decimal(blen(tag)) + ");\n"@,
        nodes: w.nodes + 1,
        create: true,
        ..w
    }
}

/// The walk after a text node under `parent`.
pub open spec fn text_step(w: WalkView, t: Seq<char>, parent: Seq<char>) -> WalkView {
    let var = "__rt"@ + decimal(w.nodes);
    WalkView {
        mount: w.mount + "let "@ + var + " = __volki_dom_create_text(\""@ + t + "\".as_ptr() as i32, "@
            + decimal(blen(t)) + ");\n"@ + append_code(parent, var),
        nodes: w.nodes + 1,
        create_text: true,
        append: true,
        ..w
    }
}

/// The walk after the placeholder of a dynamic expression under `parent` and
/// the fetch of its handle (`__dyn<slot>`).
pub open spec fn expr_start(w: WalkView, parent: Seq<char>, offset: nat) -> WalkView {
    let slot = w.slots;
    let var = "__rd"@ + decimal(w.nodes);
    let dyn_var = "__dyn"@ + decimal(slot);
    WalkView {
        mount: w.mount + "let "@ + var + " = __volki_dom_create_text(\"\".as_ptr() as i32, 0);\n"@
            + append_code(parent, var) + "__volki_ref_set_i32("@ + decimal(offset + slot) + ", "@ + var + ");\n"@,
        update: w.update + "let "@ + dyn_var + " = __volki_ref_get_i32("@ + decimal(offset + slot) + ");\n"@,
        nodes: w.nodes + 1,
        slots: w.slots + 1,
        create_text: true,
        append: true,
        ref_set: true,
        ref_get: true,
        ..w
    }
}

/// The walk after one node under `parent` (conditionals emit nothing).
pub open spec fn walk_node(w: WalkView, n: RsxNode, parent: Seq<char>, offset: nat) -> WalkView
    decreases n, 0int,
{
    match n {
        RsxNode::Element { tag, attrs, children, .. } => {
            let var = "__rn"@ + decimal(w.nodes);
            let w3 = walk_nodes(attrs_step(element_start(w, tag@), var, attrs@), children@, var, offset);
            WalkView { mount: w3.mount + append_code(parent, var), append: true, ..w3 }
        },
        RsxNode::Text(t) => text_step(w, t@, parent),
        RsxNode::Expr(e) => expr_update(expr_start(w, parent, offset), "__dyn"@ + decimal(w.slots), e@, w.slots),
        _ => w,
    }
}

/// The walk after a list of nodes under `parent`.
pub open spec fn walk_nodes(w: WalkView, ns: Seq<RsxNode>, parent: Seq<char>, offset: nat) -> WalkView
    decreases ns, 1int,
{
    if ns.len() == 0 {
        w
    } else {
        walk_node(walk_nodes(w, ns.drop_last(), parent, offset), ns.last(), parent, offset)
    }
}

/// The number of element, text and expression nodes the walk visits.
pub open spec fn node_count(n: RsxNode) -> nat
    decreases n, 0int,
{
    match n {
        RsxNode::Element { children, .. } => 1 + nodes_count(children@),
        RsxNode::Text(_) => 1,
        RsxNode::Expr(_) => 1,
        _ => 0,
    }
}

/// The number of nodes the walk visits in a list.
pub open spec fn nodes_count(ns: Seq<RsxNode>) -> nat
    decreases ns, 1int,
{
    if ns.len() == 0 { 0 } else { nodes_count(ns.drop_last()) + node_count(ns.last()) }
}

/// The number of dynamic expressions the walk visits.
pub open spec fn expr_count(n: RsxNode) -> nat
    decreases n, 0int,
{
    match n {
        RsxNode::Element { children, .. } => exprs_count(children@),
        RsxNode::Expr(_) => 1,
        _ => 0,
    }
}

/// The number of dynamic expressions the walk visits in a list.
pub open spec fn exprs_count(ns: Seq<RsxNode>) -> nat
    decreases ns, 1int,
{
    if ns.len() == 0 { 0 } else { exprs_count(ns.drop_last()) + expr_count(ns.last()) }
}

proof fn lemma_counts_prefix(ns: Seq<RsxNode>, k: int)
    requires
        0 <= k <= ns.len(),
    ensures
        nodes_count(ns.take(k)) <= nodes_count(ns),
        exprs_count(ns.take(k)) <= exprs_count(ns),
    decreases ns.len() - k,
{
    if k < ns.len() {
        lemma_counts_prefix(ns, k + 1);
        assert(ns.take(k + 1).drop_last() =~= ns.take(k));
    } else {
        assert(ns.take(k) =~= ns);
    }
}

/// The argument of a `prefix ... )` call, trimmed, if `t` is one.
fn fmt_call_inner(t: &Vec<char>, prefix: &str) -> (r: Option<String>)
    requires
        prefix@.len() >= 1,
    ensures
        opt_text(r) == fmt_inner(t@, prefix@),
{
    let pc = chars_of(prefix);
    let p = pc.len();
    if t.len() < p {
        return None;
    }
    let mut k: usize = 0;
    while k < p
        invariant
            pc@ == prefix@,
            p == pc@.len(),
            p <= t@.len(),
            k <= p,
            forall|j: int| 0 <= j < k ==> t@[j] == pc@[j],
        decreases p - k,
    {
        if t[k] != pc[k] {
            proof { assert(t@.take(p as int)[k as int] != prefix@[k as int]); }
            return None;
        }
        k += 1;
    }
    proof { assert(t@.take(p as int) =~= prefix@); }
    let mut depth: usize = 1;
    let mut i = p;
    while i < t.len()
        invariant
            1 <= p <= i <= t@.len(),
            p == prefix@.len(),
            t@.take(p as int) == prefix@,
            1 <= depth <= i - p + 1,
            paren_close(t@, i as int, depth as int) == paren_close(t@, p as int, 1),
        decreases t@.len() - i,
    {
        if t[i] == '(' {
            depth += 1;
        } else if t[i] == ')' {
            if depth <= 1 {
                let inner = string_of(t, p, i);
                proof { assert(paren_close(t@, i as int, depth as int) == i); }
                return Some(trim_str(inner.as_str()));
            }
            depth -= 1;
        }
        i += 1;
    }
    None
}

/// The texts of an optional `String`.
pub open spec fn opt_text(s: Option<String>) -> Option<Seq<char>> {
    match s {
        Some(x) => Some(x@),
        None => None,
    }
}

impl RsxWalker {
    fn push_set_attr(&mut self, var: &str, name: &str, value: &str)
        ensures
            final(self).view() == (WalkView {
                mount: old(self).view().mount + set_attr_code(var@, name@, value@),
                set_attr: true,
                ..old(self).view()
            }),
            final(self).ref_slot_offset == old(self).ref_slot_offset,
    {
        push_str(&mut self.mount, "__volki_dom_set_attr(");
        push_str(&mut self.mount, var);
        push_str(&mut self.mount, ", \"");
        push_str(&mut self.mount, name);
        push_str(&mut self.mount, "\".as_ptr() as i32, ");
        push_decimal(&mut self.mount, name.as_bytes().len());
        push_str(&mut self.mount, ", \"");
        push_str(&mut self.mount, value);
        push_str(&mut self.mount, "\".as_ptr() as i32, ");
        push_decimal(&mut self.mount, value.as_bytes().len());
        push_str(&mut self.mount, ");\n");
        self.needs_set_attr = true;
        proof {
            assert(self.mount@ =~= old(self).mount@ + set_attr_code(var@, name@, value@));
        }
    }

    fn push_classes(&mut self, var: &str, value: &str)
        ensures
            final(self).view() == (WalkView {
                mount: old(self).view().mount + classes_code(var@, split_all(value@, ' ')),
                add_class: old(self).view().add_class || any_nonempty(split_all(value@, ' ')),
                ..old(self).view()
            }),
            final(self).ref_slot_offset == old(self).ref_slot_offset,
    {
        let cs = chars_of(value);
        let ghost start = self.mount@;
        let ghost flag0 = self.needs_add_class;
        let mut cur = String::new();
        let mut i: usize = 0;
        proof { assert(cs@.take(0) =~= Seq::<char>::empty()); }
        while i < cs.len()
            invariant
                cs@ == value@,
                i <= cs@.len(),
                split_all(cs@.take(i as int), ' ').len() >= 1,
                self.mount@ == start + classes_code(var@, split_all(cs@.take(i as int), ' ').drop_last()),
                self.needs_add_class == (flag0 || any_nonempty(split_all(cs@.take(i as int), ' ').drop_last())),
                cur@ == split_all(cs@.take(i as int), ' ').last(),
                self.node_counter == old(self).node_counter,
                self.dyn_slot_counter == old(self).dyn_slot_counter,
                self.ref_slot_offset == old(self).ref_slot_offset,
                self.update == old(self).update,
                self.needs_create == old(self).needs_create,
                self.needs_create_text == old(self).needs_create_text,
                self.needs_append == old(self).needs_append,
                self.needs_set_attr == old(self).needs_set_attr,
                self.needs_set_text == old(self).needs_set_text,
                self.needs_ref_get_i32 == old(self).needs_ref_get_i32,
                self.needs_ref_set_i32 == old(self).needs_ref_set_i32,
                self.needs_fmt_i32 == old(self).needs_fmt_i32,
                self.needs_fmt_f32 == old(self).needs_fmt_f32,
            decreases cs@.len() - i,
        {
            let c = cs[i];
            let ghost v = split_all(cs@.take(i as int), ' ');
            proof { assert(cs@.take(i + 1).drop_last() =~= cs@.take(i as int)); }
            if c == ' ' {
                self.emit_class(var, &cur);
                cur = String::new();
                proof {
                    assert(split_all(cs@.take(i + 1), ' ') == v.push(Seq::empty()));
                    assert(v.push(Seq::<char>::empty()).drop_last() =~= v);
                    assert(v.drop_last().push(v.last()) =~= v);
                    lemma_any_nonempty_push(v.drop_last(), v.last());
                }
            } else {
                cur.push(c);
                proof {
                    let w = split_all(cs@.take(i + 1), ' ');
                    assert(w == v.update(v.len() - 1, v.last().push(c)));
                    assert(w.drop_last() =~= v.drop_last());
                }
            }
            i += 1;
        }
        proof { assert(cs@.take(cs@.len() as int) =~= value@); }
        self.emit_class(var, &cur);
        proof {
            let v = split_all(value@, ' ');
            assert(v.drop_last().push(v.last()) =~= v);
            lemma_any_nonempty_push(v.drop_last(), v.last());
            assert(self.mount@ =~= start + classes_code(var@, v));
        }
    }

    /// Appends the class call for `cls` when it is not empty.
    fn emit_class(&mut self, var: &str, cls: &String)
        ensures
            final(self).mount@ == old(self).mount@ + if cls@.len() > 0 { class_code(var@, cls@) } else { Seq::empty() },
            final(self).needs_add_class == (old(self).needs_add_class || cls@.len() > 0),
            final(self).update == old(self).update,
            final(self).node_counter == old(self).node_counter,
            final(self).dyn_slot_counter == old(self).dyn_slot_counter,
            final(self).ref_slot_offset == old(self).ref_slot_offset,
            final(self).needs_create == old(self).needs_create,
            final(self).needs_create_text == old(self).needs_create_text,
            final(self).needs_append == old(self).needs_append,
            final(self).needs_set_attr == old(self).needs_set_attr,
            final(self).needs_set_text == old(self).needs_set_text,
            final(self).needs_ref_get_i32 == old(self).needs_ref_get_i32,
            final(self).needs_ref_set_i32 == old(self).needs_ref_set_i32,
            final(self).needs_fmt_i32 == old(self).needs_fmt_i32,
            final(self).needs_fmt_f32 == old(self).needs_fmt_f32,
    {
        if cls.as_str().is_empty() {
            proof { assert(self.mount@ =~= old(self).mount@ + Seq::<char>::empty()); }
            return;
        }
        push_str(&mut self.mount, "__volki_dom_add_class(");
        push_str(&mut self.mount, var);
        push_str(&mut self.mount, ", \"");
        push_str(&mut self.mount, cls.as_str());
        push_str(&mut self.mount, "\".as_ptr() as i32, ");
        push_decimal(&mut self.mount, cls.as_str().as_bytes().len());
        push_str(&mut self.mount, ");\n");
        self.needs_add_class = true;
        proof { assert(self.mount@ =~= old(self).mount@ + class_code(var@, cls@)); }
    }
}

proof fn lemma_any_nonempty_push(v: Seq<Seq<char>>, x: Seq<char>)
    ensures
        any_nonempty(v.push(x)) == (any_nonempty(v) || x.len() > 0),
{
    if any_nonempty(v) {
        let k = choose|k: int| 0 <= k < v.len() && (#[trigger] v[k]).len() > 0;
        assert(v.push(x)[k] == v[k]);
    }
    if x.len() > 0 {
        assert(v.push(x)[v.len() as int] == x);
    }
    if any_nonempty(v.push(x)) {
        let k = choose|k: int| 0 <= k < v.push(x).len() && (#[trigger] v.push(x)[k]).len() > 0;
        if k < v.len() {
            assert(v[k] == v.push(x)[k]);
        }
    }
}


impl RsxWalker {
    fn walk_attrs(&mut self, var: &str, attrs: &Vec<RsxAttr>)
        ensures
            final(self).view() == attrs_step(old(self).view(), var@, attrs@),
            final(self).ref_slot_offset == old(self).ref_slot_offset,
            final(self).node_counter == old(self).node_counter,
            final(self).dyn_slot_counter == old(self).dyn_slot_counter,
    {
        let mut k: usize = 0;
        while k < attrs.len()
            invariant
                k <= attrs@.len(),
                self.view() == attrs_step(old(self).view(), var@, attrs@.take(k as int)),
                self.ref_slot_offset == old(self).ref_slot_offset,
                self.node_counter == old(self).node_counter,
                self.dyn_slot_counter == old(self).dyn_slot_counter,
            decreases attrs@.len() - k,
        {
            proof { assert(attrs@.take(k + 1).drop_last() =~= attrs@.take(k as int)); }
            let a = &attrs[k];
            match &a.value {
                RsxAttrValue::Literal(v) => {
                    if str_eq(a.name.as_str(), "class") {
                        self.push_classes(var, v.as_str());
                    } else {
                        self.push_set_attr(var, a.name.as_str(), v.as_str());
                    }
                },
                RsxAttrValue::Expr(e) => {
                    if is_event_attr(a.name.as_str()) {
                        let mut data_attr = String::new();
                        push_str(&mut data_attr, "data-volki-");
                        push_str(&mut data_attr, a.name.as_str());
                        self.push_set_attr(var, data_attr.as_str(), e.as_str());
                    }
                },
            }
            k += 1;
        }
        proof { assert(attrs@.take(attrs@.len() as int) =~= attrs@); }
    }

    fn append_to(&mut self, parent: &str, var: &str)
        ensures
            final(self).view() == (WalkView {
                mount: old(self).view().mount + append_code(parent@, var@),
                append: true,
                ..old(self).view()
            }),
            final(self).ref_slot_offset == old(self).ref_slot_offset,
    {
        push_str(&mut self.mount, "__volki_dom_append(");
        push_str(&mut self.mount, parent);
        push_str(&mut self.mount, ", ");
        push_str(&mut self.mount, var);
        push_str(&mut self.mount, ");\n");
        self.needs_append = true;
        proof { assert(self.mount@ =~= old(self).mount@ + append_code(parent@, var@)); }
    }

    fn push_fmt_update(&mut self, handle: &str, inner: &str, slot: u32, is_float: bool)
        ensures
            final(self).view() == (WalkView {
                update: old(self).view().update + fmt_code(handle@, inner@, slot as nat, is_float),
                set_text: true,
                fmt_i32: old(self).view().fmt_i32 || !is_float,
                fmt_f32: old(self).view().fmt_f32 || is_float,
                ..old(self).view()
            }),
            final(self).ref_slot_offset == old(self).ref_slot_offset,
    {
        let mut fb = String::new();
        push_str(&mut fb, "__rfb");
        push_decimal(&mut fb, slot as usize);
        let mut fl = String::new();
        push_str(&mut fl, "__rfl");
        push_decimal(&mut fl, slot as usize);
        push_str(&mut self.update, "let ");
        push_str(&mut self.update, fb.as_str());
        push_str(&mut self.update, " = __volki_alloc(20);\n");
        push_str(&mut self.update, "let ");
        push_str(&mut self.update, fl.as_str());
        if is_float {
            push_str(&mut self.update, " = __volki_state_fmt_f32(");
        } else {
            push_str(&mut self.update, " = __volki_state_fmt_i32(");
        }
        push_str(&mut self.update, inner);
        push_str(&mut self.update, ", ");
        push_str(&mut self.update, fb.as_str());
        push_str(&mut self.update, ", 20);\n");
        push_str(&mut self.update, "__volki_dom_set_text(");
        push_str(&mut self.update, handle);
        push_str(&mut self.update, ", ");
        push_str(&mut self.update, fb.as_str());
        push_str(&mut self.update, ", ");
        push_str(&mut self.update, fl.as_str());
        push_str(&mut self.update, ");\n");
        self.needs_set_text = true;
        if is_float {
            self.needs_fmt_f32 = true;
        } else {
            self.needs_fmt_i32 = true;
        }
        proof {
            assert(self.update@ =~= old(self).update@ + fmt_code(handle@, inner@, slot as nat, is_float));
        }
    }

    fn push_literal_update(&mut self, handle: &str, inner: &str)
        ensures
            final(self).view() == (WalkView {
                update: old(self).view().update + "__volki_dom_set_text("@ + handle@ + ", \""@ + inner@
                    + "\".as_ptr() as i32, "@ + decimal(blen(inner@)) + ");\n"@,
                set_text: true,
                ..old(self).view()
            }),
            final(self).ref_slot_offset == old(self).ref_slot_offset,
    {
        push_str(&mut self.update, "__volki_dom_set_text(");
        push_str(&mut self.update, handle);
        push_str(&mut self.update, ", \"");
        push_str(&mut self.update, inner);
        push_str(&mut self.update, "\".as_ptr() as i32, ");
        push_decimal(&mut self.update, inner.as_bytes().len());
        push_str(&mut self.update, ");\n");
        self.needs_set_text = true;
        proof {
            assert(self.update@ =~= old(self).update@ + "__volki_dom_set_text("@ + handle@ + ", \""@ + inner@
                + "\".as_ptr() as i32, "@ + decimal(blen(inner@)) + ");\n"@);
        }
    }

    fn push_general_update(&mut self, handle: &str, t: &str)
        ensures
            final(self).view() == (WalkView {
                update: old(self).view().update + "__volki_dom_set_text("@ + handle@ + ", ("@ + t@
                    + ").as_ptr() as i32, ("@ + t@ + ").len() as i32);\n"@,
                set_text: true,
                ..old(self).view()
            }),
            final(self).ref_slot_offset == old(self).ref_slot_offset,
    {
        push_str(&mut self.update, "__volki_dom_set_text(");
        push_str(&mut self.update, handle);
        push_str(&mut self.update, ", (");
        push_str(&mut self.update, t);
        push_str(&mut self.update, ").as_ptr() as i32, (");
        push_str(&mut self.update, t);
        push_str(&mut self.update, ").len() as i32);\n");
        self.needs_set_text = true;
        proof {
            assert(self.update@ =~= old(self).update@ + "__volki_dom_set_text("@ + handle@ + ", ("@ + t@
                + ").as_ptr() as i32, ("@ + t@ + ").len() as i32);\n"@);
        }
    }

    /// Appends the update code of a dynamic expression.
    fn generate_expr_update(&mut self, handle: &str, expr: &str, slot: u32)
        ensures
            final(self).view() == expr_update(old(self).view(), handle@, expr@, slot as nat),
            final(self).ref_slot_offset == old(self).ref_slot_offset,
    {
        let t = trim_str(expr);
        let tc = chars_of(t.as_str());
        proof {
            reveal_strlit("state::fmt_i32(");
            reveal_strlit("state::fmt_f32(");
        }
        match fmt_call_inner(&tc, "state::fmt_i32(") {
            Some(inner) => {
                self.push_fmt_update(handle, inner.as_str(), slot, false);
                return;
            },
            None => {},
        }
        match fmt_call_inner(&tc, "state::fmt_f32(") {
            Some(inner) => {
                self.push_fmt_update(handle, inner.as_str(), slot, true);
                return;
            },
            None => {},
        }
        let n = tc.len();
        if n >= 2 && tc[0] == '"' && tc[n - 1] == '"' {
            let inner = string_of(&tc, 1, n - 1);
            self.push_literal_update(handle, inner.as_str());
            return;
        }
        self.push_general_update(handle, t.as_str());
    }

    fn push_element_start(&mut self, tag: &str) -> (var: String)
        requires
            old(self).node_counter < u32::MAX,
        ensures
            final(self).view() == element_start(old(self).view(), tag@),
            var@ == "__rn"@ + decimal(old(self).node_counter as nat),
            final(self).ref_slot_offset == old(self).ref_slot_offset,
            final(self).node_counter == old(self).node_counter + 1,
            final(self).dyn_slot_counter == old(self).dyn_slot_counter,
    {
        let n = self.node_counter;
        self.node_counter = n + 1;
        let mut var = String::new();
        push_str(&mut var, "__rn");
        push_decimal(&mut var, n as usize);
        push_str(&mut self.mount, "let ");
        push_str(&mut self.mount, var.as_str());
        push_str(&mut self.mount, " = __volki_dom_create(\"");
        push_str(&mut self.mount, tag);
        push_str(&mut self.mount, "\".as_ptr() as i32, ");
        push_decimal(&mut self.mount, tag.as_bytes().len());
        push_str(&mut self.mount, ");\n");
        self.needs_create = true;
        proof {
            assert(self.mount@ =~= old(self).mount@ + "let "@ + var@ + " = __volki_dom_create(\""@ + tag@
                + "\".as_ptr() as i32, "@ + decimal(blen(tag@)) + ");\n"@);
        }
        var
    }

    fn push_text(&mut self, text: &str, parent: &str)
        requires
            old(self).node_counter < u32::MAX,
        ensures
            final(self).view() == text_step(old(self).view(), text@, parent@),
            final(self).ref_slot_offset == old(self).ref_slot_offset,
            final(self).node_counter == old(self).node_counter + 1,
            final(self).dyn_slot_counter == old(self).dyn_slot_counter,
    {
        let n = self.node_counter;
        self.node_counter = n + 1;
        let mut var = String::new();
        push_str(&mut var, "__rt");
        push_decimal(&mut var, n as usize);
        push_str(&mut self.mount, "let ");
        push_str(&mut self.mount, var.as_str());
        push_str(&mut self.mount, " = __volki_dom_create_text(\"");
        push_str(&mut self.mount, text);
        push_str(&mut self.mount, "\".as_ptr() as i32, ");
        push_decimal(&mut self.mount, text.as_bytes().len());
        push_str(&mut self.mount, ");\n");
        self.needs_create_text = true;
        push_str(&mut self.mount, "__volki_dom_append(");
        push_str(&mut self.mount, parent);
        push_str(&mut self.mount, ", ");
        push_str(&mut self.mount, var.as_str());
        push_str(&mut self.mount, ");\n");
        self.needs_append = true;
        proof {
            assert(self.mount@ =~= old(self).mount@ + "let "@ + var@ + " = __volki_dom_create_text(\""@ + text@
                + "\".as_ptr() as i32, "@ + decimal(blen(text@)) + ");\n"@ + append_code(parent@, var@));
        }
    }

    fn push_expr_start(&mut self, parent: &str) -> (dyn_var: String)
        requires
            old(self).node_counter < u32::MAX,
            old(self).ref_slot_offset + old(self).dyn_slot_counter < u32::MAX,
        ensures
            final(self).view() == expr_start(old(self).view(), parent@, old(self).ref_slot_offset as nat),
            dyn_var@ == "__dyn"@ + decimal(old(self).dyn_slot_counter as nat),
            final(self).ref_slot_offset == old(self).ref_slot_offset,
            final(self).node_counter == old(self).node_counter + 1,
            final(self).dyn_slot_counter == old(self).dyn_slot_counter + 1,
    {
        let slot = self.dyn_slot_counter;
        self.dyn_slot_counter = slot + 1;
        let ref_slot = self.ref_slot_offset + slot;
        let n = self.node_counter;
        self.node_counter = n + 1;
        let mut var = String::new();
        push_str(&mut var, "__rd");
        push_decimal(&mut var, n as usize);
        push_str(&mut self.mount, "let ");
        push_str(&mut self.mount, var.as_str());
        push_str(&mut self.mount, " = __volki_dom_create_text(\"\".as_ptr() as i32, 0);\n");
        self.needs_create_text = true;
        push_str(&mut self.mount, "__volki_dom_append(");
        push_str(&mut self.mount, parent);
        push_str(&mut self.mount, ", ");
        push_str(&mut self.mount, var.as_str());
        push_str(&mut self.mount, ");\n");
        self.needs_append = true;
        push_str(&mut self.mount, "__volki_ref_set_i32(");
        push_decimal(&mut self.mount, ref_slot as usize);
        push_str(&mut self.mount, ", ");
        push_str(&mut self.mount, var.as_str());
        push_str(&mut self.mount, ");\n");
        self.needs_ref_set_i32 = true;
        let mut dyn_var = String::new();
        push_str(&mut dyn_var, "__dyn");
        push_decimal(&mut dyn_var, slot as usize);
        push_str(&mut self.update, "let ");
        push_str(&mut self.update, dyn_var.as_str());
        push_str(&mut self.update, " = __volki_ref_get_i32(");
        push_decimal(&mut self.update, ref_slot as usize);
        push_str(&mut self.update, ");\n");
        self.needs_ref_get_i32 = true;
        proof {
            assert(self.mount@ =~= old(self).mount@ + "let "@ + var@ + " = __volki_dom_create_text(\"\".as_ptr() as i32, 0);\n"@
                + append_code(parent@, var@) + "__volki_ref_set_i32("@ + decimal((old(self).ref_slot_offset + slot) as nat)
                + ", "@ + var@ + ");\n"@);
            assert(self.update@ =~= old(self).update@ + "let "@ + dyn_var@ + " = __volki_ref_get_i32("@
                + decimal((old(self).ref_slot_offset + slot) as nat) + ");\n"@);
        }
        dyn_var
    }

    fn walk_node(&mut self, node: &RsxNode, parent: &str)
        requires
            old(self).node_counter + node_count(*node) <= u32::MAX,
            old(self).ref_slot_offset + old(self).dyn_slot_counter + expr_count(*node) <= u32::MAX,
        ensures
            final(self).view() == walk_node(old(self).view(), *node, parent@, old(self).ref_slot_offset as nat),
            final(self).ref_slot_offset == old(self).ref_slot_offset,
            final(self).node_counter == old(self).node_counter + node_count(*node),
            final(self).dyn_slot_counter == old(self).dyn_slot_counter + expr_count(*node),
        decreases *node, 0int,
    {
        match node {
            RsxNode::Element { tag, attrs, children, .. } => {
                let var = self.push_element_start(tag.as_str());
                self.walk_attrs(var.as_str(), attrs);
                self.walk_nodes(children, var.as_str());
                self.append_to(parent, var.as_str());
            },
            RsxNode::Text(text) => {
                self.push_text(text.as_str(), parent);
            },
            RsxNode::Expr(expr) => {
                let slot = self.dyn_slot_counter;
                let dyn_var = self.push_expr_start(parent);
                self.generate_expr_update(dyn_var.as_str(), expr.as_str(), slot);
            },
            _ => {},
        }
    }

    fn walk_nodes(&mut self, ns: &Vec<RsxNode>, parent: &str)
        requires
            old(self).node_counter + nodes_count(ns@) <= u32::MAX,
            old(self).ref_slot_offset + old(self).dyn_slot_counter + exprs_count(ns@) <= u32::MAX,
        ensures
            final(self).view() == walk_nodes(old(self).view(), ns@, parent@, old(self).ref_slot_offset as nat),
            final(self).ref_slot_offset == old(self).ref_slot_offset,
            final(self).node_counter == old(self).node_counter + nodes_count(ns@),
            final(self).dyn_slot_counter == old(self).dyn_slot_counter + exprs_count(ns@),
        decreases *ns, 1int,
    {
        let mut k: usize = 0;
        while k < ns.len()
            invariant
                k <= ns@.len(),
                old(self).node_counter + nodes_count(ns@) <= u32::MAX,
                old(self).ref_slot_offset + old(self).dyn_slot_counter + exprs_count(ns@) <= u32::MAX,
                self.view() == walk_nodes(old(self).view(), ns@.take(k as int), parent@, old(self).ref_slot_offset as nat),
                self.ref_slot_offset == old(self).ref_slot_offset,
                self.node_counter == old(self).node_counter + nodes_count(ns@.take(k as int)),
                self.dyn_slot_counter == old(self).dyn_slot_counter + exprs_count(ns@.take(k as int)),
            decreases ns@.len() - k,
        {
            proof {
                assert(ns@.take(k + 1).drop_last() =~= ns@.take(k as int));
                lemma_counts_prefix(ns@, k + 1);
            }
            self.walk_node(&ns[k], parent);
            k += 1;
        }
        proof { assert(ns@.take(ns@.len() as int) =~= ns@); }
    }
}

/// The walk before any node: the mount point of the component.
pub open spec fn start_view(component_id: u32) -> WalkView {
    WalkView {
        mount: "let __rsx_mp = __volki_component_mount_point("@ + decimal(component_id as nat) + ");\n"@,
        update: Seq::empty(),
        nodes: 0,
        slots: 0,
        create: false,
        create_text: false,
        append: false,
        add_class: false,
        set_attr: false,
        set_text: false,
        ref_get: false,
        ref_set: false,
        fmt_i32: false,
        fmt_f32: false,
    }
}

/// `out` is the result of the walk `w`.
pub open spec fn output_is(out: WasmRsxOutput, w: WalkView) -> bool {
    &&& out.mount_code@ == w.mount
    &&& out.update_code@ == w.update
    &&& out.ref_slots_used == w.slots
    &&& out.needs_create == w.create
    &&& out.needs_create_text == w.create_text
    &&& out.needs_append == w.append
    &&& out.needs_add_class == w.add_class
    &&& out.needs_set_attr == w.set_attr
    &&& out.needs_set_text == w.set_text
    &&& out.needs_mount_point
    &&& out.needs_is_mounted
    &&& out.needs_ref_get_i32 == w.ref_get
    &&& out.needs_ref_set_i32 == w.ref_set
    &&& out.needs_fmt_i32 == w.fmt_i32
    &&& out.needs_fmt_f32 == w.fmt_f32
}

/// Generates the mount and update code for the RSX `nodes` of the Component
/// `component_id`; dynamic expressions use the ref slots from `ref_slot_offset`
/// on (after the component's own `use_ref` slots).
pub fn generate_component_rsx(nodes: &Vec<RsxNode>, component_id: u32, ref_slot_offset: u32) -> (r: WasmRsxOutput)
    requires
        nodes_count(nodes@) <= u32::MAX,
        ref_slot_offset + exprs_count(nodes@) <= u32::MAX,
    ensures
        output_is(r, walk_nodes(start_view(component_id), nodes@, "__rsx_mp"@, ref_slot_offset as nat)),
{
    let mut walker = RsxWalker {
        mount: String::new(),
        update: String::new(),
        node_counter: 0,
        dyn_slot_counter: 0,
        ref_slot_offset,
        needs_create: false,
        needs_create_text: false,
        needs_append: false,
        needs_add_class: false,
        needs_set_attr: false,
        needs_set_text: false,
        needs_ref_get_i32: false,
        needs_ref_set_i32: false,
        needs_fmt_i32: false,
        needs_fmt_f32: false,
    };
    push_str(&mut walker.mount, "let ");
    push_str(&mut walker.mount, "__rsx_mp");
    push_str(&mut walker.mount, " = __volki_component_mount_point(");
    push_decimal(&mut walker.mount, component_id as usize);
    push_str(&mut walker.mount, ");\n");
    proof {
        reveal_strlit("let ");
        reveal_strlit("__rsx_mp");
        reveal_strlit(" = __volki_component_mount_point(");
        reveal_strlit("let __rsx_mp = __volki_component_mount_point(");
        assert(walker.view().mount =~= start_view(component_id).mount);
        assert(walker.view() == start_view(component_id));
    }
    walker.walk_nodes(nodes, "__rsx_mp");
    WasmRsxOutput {
        mount_code: walker.mount,
        update_code: walker.update,
        ref_slots_used: walker.dyn_slot_counter,
        needs_create: walker.needs_create,
        needs_create_text: walker.needs_create_text,
        needs_append: walker.needs_append,
        needs_add_class: walker.needs_add_class,
        needs_set_attr: walker.needs_set_attr,
        needs_set_text: walker.needs_set_text,
        needs_mount_point: true,
        needs_is_mounted: true,
        needs_ref_get_i32: walker.needs_ref_get_i32,
        needs_ref_set_i32: walker.needs_ref_set_i32,
        needs_fmt_i32: walker.needs_fmt_i32,
        needs_fmt_f32: walker.needs_fmt_f32,
    }
}

} // verus!
