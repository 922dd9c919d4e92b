//! Semantic checks of RSX: event bindings must name top-level Client functions,
//! custom component tags must resolve to functions returning Fragment, and
//! component props must match the function's parameters.

use vstd::prelude::*;
use vstd::string::StringSliceAdditionalSpecFns;
use std::path::PathBuf;
use super::{CompileError, clone_path, line_col, line_col_at};
use super::parser::{RsxAttr, RsxAttrValue, RsxNode};
use super::scanner::{FnParam, RsxFunction, RsxReturnType};
use super::codegen::{is_event_name, is_event_attr};
use super::boundary::opt_view;
use crate::text::{push_str, push_decimal, decimal, occurs_in, contains, trim_str, trimmed, chars_of, str_eq, string_of};

verus! {

/// A character that may start an identifier.
pub open spec fn ident_start(c: char) -> bool {
    ('a' <= c <= 'z') || ('A' <= c <= 'Z') || c == '_'
}

/// A character that may continue an identifier.
pub open spec fn ident_char(c: char) -> bool {
    ident_start(c) || ('0' <= c <= '9')
}

/// `s`, trimmed, is an ASCII identifier.
pub open spec fn identifier(s: Seq<char>) -> bool {
    let t = trimmed(s, 0, s.len() as int);
    t.len() > 0 && ident_start(t[0]) && forall|k: int| 1 <= k < t.len() ==> ident_char(#[trigger] t[k])
}

/// Whether `expr`, trimmed, is an identifier.
pub fn is_identifier(expr: &str) -> (r: bool)
    ensures
        r == identifier(expr@),
{
    let t = trim_str(expr);
    let cs = chars_of(t.as_str());
    if cs.len() == 0 {
        return false;
    }
    let c0 = cs[0];
    if !(('a' <= c0 && c0 <= 'z') || ('A' <= c0 && c0 <= 'Z') || c0 == '_') {
        return false;
    }
    let mut k: usize = 1;
    while k < cs.len()
        invariant
            cs@ == trimmed(expr@, 0, expr@.len() as int),
            1 <= k <= cs@.len(),
            forall|j: int| 1 <= j < k ==> ident_char(#[trigger] cs@[j]),
        decreases cs@.len() - k,
    {
        let c = cs[k];
        if !(('a' <= c && c <= 'z') || ('A' <= c && c <= 'Z') || c == '_' || ('0' <= c && c <= '9')) {
            return false;
        }
        k += 1;
    }
    true
}

/// The arity of the first symbol from `k` on named `e`.
pub open spec fn arity_from(syms: Seq<(Seq<char>, usize)>, e: Seq<char>, k: int) -> Option<usize>
    decreases syms.len() - k,
{
    if k >= syms.len() {
        None
    } else if syms[k].0 == e {
        Some(syms[k].1)
    } else {
        arity_from(syms, e, k + 1)
    }
}

/// What is wrong with the event binding of one attribute, if anything
/// (`comp`: the attribute is on a custom component, where expressions are props).
pub open spec fn attr_problem(a: RsxAttr, comp: bool, syms: Seq<(Seq<char>, usize)>) -> Option<Seq<char>> {
    let ev = is_event_name(a.name@);
    match a.value {
        RsxAttrValue::Expr(e) => if !ev {
            if comp { None } else {
                Some("only event attributes support expression values; use a quoted string for non-event attrs"@)
            }
        } else if comp {
            None
        } else if !identifier(e@) {
            Some("event handler expression must be a top-level Client function identifier"@)
        } else {
            match arity_from(syms, e@, 0) {
                None => Some("event handler `"@ + e@ + "` not found as a top-level Client function"@),
                Some(n) => if n > 1 {
                    Some("event handler `"@ + e@ + "` has "@ + decimal(n as nat) + " params; only 0 or 1 are supported"@)
                } else {
                    None
                },
            }
        },
        RsxAttrValue::Literal(v) => if !ev {
            None
        } else if occurs_in(v@, "__volki."@) || occurs_in(v@, "window.__volki"@) {
            Some("legacy __volki inline handlers are removed; use event bindings like onclick={on_click}"@)
        } else {
            Some("event attributes must use expression syntax like onclick={on_click}"@)
        },
    }
}

/// The first attribute of `attrs` with an event binding problem: its name and
/// the message.
pub open spec fn attrs_problem(attrs: Seq<RsxAttr>, comp: bool, syms: Seq<(Seq<char>, usize)>) -> Option<(Seq<char>, Seq<char>)>
    decreases attrs.len(),
{
    if attrs.len() == 0 {
        None
    } else {
        match attrs_problem(attrs.drop_last(), comp, syms) {
            Some(p) => Some(p),
            None => match attr_problem(attrs.last(), comp, syms) {
                Some(m) => Some((attrs.last().name@, m)),
                None => None,
            },
        }
    }
}

/// The first event binding problem in a node, depth first.
pub open spec fn node_problem(n: RsxNode, syms: Seq<(Seq<char>, usize)>) -> Option<(Seq<char>, Seq<char>)>
    decreases n, 0int,
{
    match n {
        RsxNode::Element { tag, attrs, children, .. } => match attrs_problem(attrs@, super::component_tag(tag@), syms) {
            Some(p) => Some(p),
            None => nodes_problem(children@, syms),
        },
        RsxNode::CondAnd { body, .. } => nodes_problem(body@, syms),
        RsxNode::Ternary { if_true, if_false, .. } => match nodes_problem(if_true@, syms) {
            Some(p) => Some(p),
            None => nodes_problem(if_false@, syms),
        },
        _ => None,
    }
}

/// The first event binding problem in a list of nodes.
pub open spec fn nodes_problem(ns: Seq<RsxNode>, syms: Seq<(Seq<char>, usize)>) -> Option<(Seq<char>, Seq<char>)>
    decreases ns, 1int,
{
    if ns.len() == 0 {
        None
    } else {
        match nodes_problem(ns.drop_last(), syms) {
            Some(p) => Some(p),
            None => node_problem(ns.last(), syms),
        }
    }
}

/// The names (as text) and arities of client symbols.
pub open spec fn syms_view(syms: Seq<(String, usize)>) -> Seq<(Seq<char>, usize)> {
    syms.map_values(|p: (String, usize)| (p.0@, p.1))
}

/// The texts of an optional pair of strings.
pub open spec fn pair_view(p: Option<(String, String)>) -> Option<(Seq<char>, Seq<char>)> {
    match p {
        Some(x) => Some((x.0@, x.1@)),
        None => None,
    }
}

/// The first `k >= from` with `b[k..k + needle.len()] == needle` and
/// `k + needle.len() <= to`.
pub open spec fn first_occurrence(b: Seq<u8>, from: int, to: int, needle: Seq<u8>) -> Option<int>
    decreases to + 1 - from,
{
    if from + needle.len() > to {
        None
    } else if b.subrange(from, from + needle.len()) == needle {
        Some(from)
    } else {
        first_occurrence(b, from + 1, to, needle)
    }
}

/// Where the attribute `name=` first occurs in the body, or the body's start.
pub open spec fn attr_offset(b: Seq<u8>, span: (usize, usize), name: Seq<char>) -> int {
    match first_occurrence(b, span.0 as int, span.1 as int, vstd::utf8::encode_utf8(name).push(0x3Du8)) {
        Some(k) => k,
        None => span.0 as int,
    }
}

/// Where the tag `<tag` first occurs in the body, or the body's start.
pub open spec fn tag_offset(b: Seq<u8>, span: (usize, usize), tag: Seq<char>) -> int {
    match first_occurrence(b, span.0 as int, span.1 as int, seq![0x3Cu8] + vstd::utf8::encode_utf8(tag)) {
        Some(k) => k,
        None => span.0 as int,
    }
}

/// `e` is an error in `file` at byte `off` of `src` with the message `msg`.
pub open spec fn error_at(e: CompileError, file: PathBuf, src: Seq<u8>, off: int, msg: Seq<char>) -> bool {
    &&& e.file == file
    &&& e.line == line_col(src, off).0
    &&& e.col == line_col(src, off).1
    &&& e.message@ == msg
}

/// A span inside the source.
pub open spec fn span_ok(src: Seq<u8>, span: (usize, usize)) -> bool {
    span.0 <= span.1 < src.len()
}

fn find_in(b: &[u8], from: usize, to: usize, needle: &Vec<u8>) -> (r: Option<usize>)
    requires
        from <= to <= b@.len(),
    ensures
        r matches Some(k) ==> first_occurrence(b@, from as int, to as int, needle@) == Some(k as int) && from <= k <= to,
        r is None ==> first_occurrence(b@, from as int, to as int, needle@) is None,
{
    let m = needle.len();
    let mut k = from;
    while k <= to && to - k >= m
        invariant
            from <= k,
            to <= b@.len(),
            m == needle@.len(),
            first_occurrence(b@, k as int, to as int, needle@) == first_occurrence(b@, from as int, to as int, needle@),
        decreases to + 1 - k,
    {
        let mut t: usize = 0;
        while t < m && b[k + t] == needle[t]
            invariant
                k + m <= to <= b@.len(),
                m == needle@.len(),
                t <= m,
                forall|u: int| 0 <= u < t ==> b@[k + u] == needle@[u],
            decreases m - t,
        {
            t += 1;
        }
        if t == m {
            proof { assert(b@.subrange(k as int, k + m) =~= needle@); }
            return Some(k);
        }
        proof { assert(b@.subrange(k as int, k + m)[t as int] != needle@[t as int]); }
        k += 1;
    }
    None
}

fn bytes_of(s: &str) -> (v: Vec<u8>)
    ensures
        v@ == s.spec_bytes(),
{
    let b = s.as_bytes();
    let mut v: Vec<u8> = Vec::new();
    let mut i: usize = 0;
    while i < b.len()
        invariant
            b@ == s.spec_bytes(),
            i <= b@.len(),
            v@ == b@.subrange(0, i as int),
        decreases b@.len() - i,
    {
        v.push(b[i]);
        i += 1;
        proof { assert(v@ =~= b@.subrange(0, i as int)); }
    }
    proof { assert(b@.subrange(0, b@.len() as int) =~= b@); }
    v
}

/// The offset of `name=` in the body (or the body's start).
fn find_attr_offset(source: &str, span: (usize, usize), name: &str) -> (r: usize)
    requires
        span_ok(source.spec_bytes(), span),
    ensures
        r == attr_offset(source.spec_bytes(), span, name@),
        r < source.spec_bytes().len(),
{
    let mut needle = bytes_of(name);
    needle.push(0x3D);
    match find_in(source.as_bytes(), span.0, span.1, &needle) {
        Some(k) => k,
        None => span.0,
    }
}

/// The offset of `<tag` in the body (or the body's start).
fn find_tag_offset(source: &str, span: (usize, usize), tag: &str) -> (r: usize)
    requires
        span_ok(source.spec_bytes(), span),
    ensures
        r == tag_offset(source.spec_bytes(), span, tag@),
        r < source.spec_bytes().len(),
{
    let tb = bytes_of(tag);
    let mut needle: Vec<u8> = Vec::new();
    needle.push(0x3C);
    let mut i: usize = 0;
    while i < tb.len()
        invariant
            i <= tb@.len(),
            needle@ == seq![0x3Cu8] + tb@.subrange(0, i as int),
        decreases tb@.len() - i,
    {
        needle.push(tb[i]);
        i += 1;
        proof { assert(needle@ =~= seq![0x3Cu8] + tb@.subrange(0, i as int)); }
    }
    proof { assert(tb@.subrange(0, tb@.len() as int) =~= tb@); }
    match find_in(source.as_bytes(), span.0, span.1, &needle) {
        Some(k) => k,
        None => span.0,
    }
}

/// An error in `file` at byte `off` of `source`.
fn error_at_offset(source: &str, file: &PathBuf, off: usize, message: String) -> (e: CompileError)
    requires
        off < source.spec_bytes().len(),
    ensures
        error_at(e, *file, source.spec_bytes(), off as int, message@),
{
    let (line, col) = line_col_at(source.as_bytes(), off);
    CompileError { file: clone_path(file), line, col, message }
}

/// The arity of the first of `syms` named `e`.
fn find_arity(syms: &[(String, usize)], e: &str) -> (r: Option<usize>)
    ensures
        r == arity_from(syms_view(syms@), e@, 0),
{
    let mut k: usize = 0;
    while k < syms.len()
        invariant
            k <= syms@.len(),
            arity_from(syms_view(syms@), e@, k as int) == arity_from(syms_view(syms@), e@, 0),
        decreases syms@.len() - k,
    {
        if str_eq(syms[k].0.as_str(), e) {
            return Some(syms[k].1);
        }
        k += 1;
    }
    None
}

/// The event binding problem of one attribute.
fn attr_binding_problem(a: &RsxAttr, comp: bool, syms: &[(String, usize)]) -> (r: Option<String>)
    ensures
        opt_view(r) == attr_problem(*a, comp, syms_view(syms@)),
{
    let ev = is_event_attr(a.name.as_str());
    let mut m = String::new();
    match &a.value {
        RsxAttrValue::Expr(e) => {
            if !ev {
                if comp {
                    return None;
                }
                push_str(&mut m, "only event attributes support expression values; use a quoted string for non-event attrs");
                return Some(m);
            }
            if comp {
                return None;
            }
            if !is_identifier(e.as_str()) {
                push_str(&mut m, "event handler expression must be a top-level Client function identifier");
                return Some(m);
            }
            match find_arity(syms, e.as_str()) {
                None => {
                    push_str(&mut m, "event handler `");
                    push_str(&mut m, e.as_str());
                    push_str(&mut m, "` not found as a top-level Client function");
                    Some(m)
                },
                Some(n) => {
                    if n > 1 {
                        push_str(&mut m, "event handler `");
                        push_str(&mut m, e.as_str());
                        push_str(&mut m, "` has ");
                        push_decimal(&mut m, n);
                        push_str(&mut m, " params; only 0 or 1 are supported");
                        Some(m)
                    } else {
                        None
                    }
                },
            }
        },
        RsxAttrValue::Literal(v) => {
            if !ev {
                return None;
            }
            if contains(v.as_str(), "__volki.") || contains(v.as_str(), "window.__volki") {
                push_str(&mut m, "legacy __volki inline handlers are removed; use event bindings like onclick={on_click}");
            } else {
                push_str(&mut m, "event attributes must use expression syntax like onclick={on_click}");
            }
            Some(m)
        },
    }
}

fn attrs_binding_problem(attrs: &Vec<RsxAttr>, comp: bool, syms: &[(String, usize)]) -> (r: Option<(String, String)>)
    ensures
        pair_view(r) == attrs_problem(attrs@, comp, syms_view(syms@)),
{
    let mut k: usize = 0;
    while k < attrs.len()
        invariant
            k <= attrs@.len(),
            attrs_problem(attrs@.take(k as int), comp, syms_view(syms@)) is None,
        decreases attrs@.len() - k,
    {
        proof { assert(attrs@.take(k + 1).drop_last() =~= attrs@.take(k as int)); }
        match attr_binding_problem(&attrs[k], comp, syms) {
            Some(m) => {
                proof {
                    lemma_attrs_problem_prefix(attrs@, k as int + 1, comp, syms_view(syms@));
                }
                return Some((attrs[k].name.clone(), m));
            },
            None => {},
        }
        k += 1;
    }
    proof { assert(attrs@.take(attrs@.len() as int) =~= attrs@); }
    None
}

/// A problem found in a prefix of `attrs` is the first problem of `attrs`.
proof fn lemma_attrs_problem_prefix(attrs: Seq<RsxAttr>, k: int, comp: bool, syms: Seq<(Seq<char>, usize)>)
    requires
        0 <= k <= attrs.len(),
        attrs_problem(attrs.take(k), comp, syms) is Some,
    ensures
        attrs_problem(attrs, comp, syms) == attrs_problem(attrs.take(k), comp, syms),
    decreases attrs.len() - k,
{
    if k < attrs.len() {
        assert(attrs.take(k + 1).drop_last() =~= attrs.take(k));
        lemma_attrs_problem_prefix(attrs, k + 1, comp, syms);
    } else {
        assert(attrs.take(k) =~= attrs);
    }
}

/// A problem found in a prefix of `ns` is the first problem of `ns`.
proof fn lemma_nodes_problem_prefix(ns: Seq<RsxNode>, k: int, syms: Seq<(Seq<char>, usize)>)
    requires
        0 <= k <= ns.len(),
        nodes_problem(ns.take(k), syms) is Some,
    ensures
        nodes_problem(ns, syms) == nodes_problem(ns.take(k), syms),
    decreases ns.len() - k,
{
    if k < ns.len() {
        assert(ns.take(k + 1).drop_last() =~= ns.take(k));
        lemma_nodes_problem_prefix(ns, k + 1, syms);
    } else {
        assert(ns.take(k) =~= ns);
    }
}

fn node_binding_problem(n: &RsxNode, syms: &[(String, usize)]) -> (r: Option<(String, String)>)
    ensures
        pair_view(r) == node_problem(*n, syms_view(syms@)),
    decreases *n, 0int,
{
    match n {
        RsxNode::Element { tag, attrs, children, .. } => {
            let comp = super::is_component_tag(tag.as_str());
            match attrs_binding_problem(attrs, comp, syms) {
                Some(p) => Some(p),
                None => nodes_binding_problem(children, syms),
            }
        },
        RsxNode::CondAnd { body, .. } => nodes_binding_problem(body, syms),
        RsxNode::Ternary { if_true, if_false, .. } => match nodes_binding_problem(if_true, syms) {
            Some(p) => Some(p),
            None => nodes_binding_problem(if_false, syms),
        },
        _ => None,
    }
}

fn nodes_binding_problem(ns: &Vec<RsxNode>, syms: &[(String, usize)]) -> (r: Option<(String, String)>)
    ensures
        pair_view(r) == nodes_problem(ns@, syms_view(syms@)),
    decreases *ns, 1int,
{
    let mut k: usize = 0;
    while k < ns.len()
        invariant
            k <= ns@.len(),
            nodes_problem(ns@.take(k as int), syms_view(syms@)) is None,
        decreases ns@.len() - k,
    {
        proof { assert(ns@.take(k + 1).drop_last() =~= ns@.take(k as int)); }
        match node_binding_problem(&ns[k], syms) {
            Some(p) => {
                proof { lemma_nodes_problem_prefix(ns@, k as int + 1, syms_view(syms@)); }
                return Some(p);
            },
            None => {},
        }
        k += 1;
    }
    proof { assert(ns@.take(ns@.len() as int) =~= ns@); }
    None
}

/// Checks the event bindings of the RSX `nodes` of a function body: event
/// attributes must be `{handler}` expressions naming a top-level Client
/// function of at most one parameter, and other attributes of plain elements
/// must be literals. The error points at the first `name=` of the attribute in
/// the body.
pub fn validate_event_bindings(
    source: &str,
    file: &PathBuf,
    body_span: (usize, usize),
    nodes: &Vec<RsxNode>,
    client_symbols: &[(String, usize)],
) -> (r: Result<(), CompileError>)
    requires
        span_ok(source.spec_bytes(), body_span),
    ensures
        match nodes_problem(nodes@, syms_view(client_symbols@)) {
            None => r is Ok,
            Some(p) => r matches Err(e) && error_at(e, *file, source.spec_bytes(),
                attr_offset(source.spec_bytes(), body_span, p.0), p.1),
        },
{
    match nodes_binding_problem(nodes, client_symbols) {
        None => Ok(()),
        Some((name, message)) => {
            let off = find_attr_offset(source, body_span, name.as_str());
            Err(error_at_offset(source, file, off, message))
        },
    }
}


/// The parameters of the first entry of `map` named `name`, from `k` on.
pub open spec fn params_from(map: Seq<(String, Vec<FnParam>)>, name: Seq<char>, k: int) -> Option<Seq<FnParam>>
    decreases map.len() - k,
{
    if k >= map.len() {
        None
    } else if map[k].0@ == name {
        Some(map[k].1@)
    } else {
        params_from(map, name, k + 1)
    }
}

/// One of `ps` is named `n`.
pub open spec fn has_param(ps: Seq<FnParam>, n: Seq<char>) -> bool {
    exists|j: int| 0 <= j < ps.len() && (#[trigger] ps[j]).name@ == n
}

/// One of `attrs` is named `n`.
pub open spec fn has_attr(attrs: Seq<RsxAttr>, n: Seq<char>) -> bool {
    exists|j: int| 0 <= j < attrs.len() && (#[trigger] attrs[j]).name@ == n
}

/// The first attribute without a matching parameter.
pub open spec fn unknown_prop(attrs: Seq<RsxAttr>, ps: Seq<FnParam>) -> Option<Seq<char>>
    decreases attrs.len(),
{
    if attrs.len() == 0 {
        None
    } else {
        match unknown_prop(attrs.drop_last(), ps) {
            Some(a) => Some(a),
            None => if has_param(ps, attrs.last().name@) { None } else { Some(attrs.last().name@) },
        }
    }
}

/// The first parameter (other than `children`) without a matching attribute.
pub open spec fn missing_prop(ps: Seq<FnParam>, attrs: Seq<RsxAttr>) -> Option<Seq<char>>
    decreases ps.len(),
{
    if ps.len() == 0 {
        None
    } else {
        match missing_prop(ps.drop_last(), attrs) {
            Some(p) => Some(p),
            None => if ps.last().name@ == "children"@ || has_attr(attrs, ps.last().name@) {
                None
            } else {
                Some(ps.last().name@)
            },
        }
    }
}

/// A props problem: whether it is located at an attribute (`name=`) rather than
/// at the tag (`<tag`), the name to locate, and the message.
pub type PropsProblem = (bool, Seq<char>, Seq<char>);

/// The props problem of one element, if it is a known component.
pub open spec fn element_props_problem(tag: Seq<char>, attrs: Seq<RsxAttr>, has_children: bool, map: Seq<(String, Vec<FnParam>)>) -> Option<PropsProblem> {
    if !super::component_tag(tag) {
        None
    } else {
        match params_from(map, super::snake_of(vstd::utf8::encode_utf8(tag)), 0) {
            None => None,
            Some(ps) => match unknown_prop(attrs, ps) {
                Some(a) => Some((true, a, "unknown prop `"@ + a + "` on component `"@ + tag + "`"@)),
                None => match missing_prop(ps, attrs) {
                    Some(p) => Some((false, tag, "missing required prop `"@ + p + "` on component `"@ + tag + "`"@)),
                    None => if has_children && !has_param(ps, "children"@) {
                        Some((false, tag, "component `"@ + tag + "` does not accept children; add a `children: Vec<HtmlNode>` parameter"@))
                    } else {
                        None
                    },
                },
            },
        }
    }
}

/// The first props problem in a node, depth first.
pub open spec fn node_props_problem(n: RsxNode, map: Seq<(String, Vec<FnParam>)>) -> Option<PropsProblem>
    decreases n, 0int,
{
    match n {
        RsxNode::Element { tag, attrs, children, .. } => match element_props_problem(tag@, attrs@, children@.len() > 0, map) {
            Some(p) => Some(p),
            None => nodes_props_problem(children@, map),
        },
        RsxNode::CondAnd { body, .. } => nodes_props_problem(body@, map),
        RsxNode::Ternary { if_true, if_false, .. } => match nodes_props_problem(if_true@, map) {
            Some(p) => Some(p),
            None => nodes_props_problem(if_false@, map),
        },
        _ => None,
    }
}

/// The first props problem in a list of nodes.
pub open spec fn nodes_props_problem(ns: Seq<RsxNode>, map: Seq<(String, Vec<FnParam>)>) -> Option<PropsProblem>
    decreases ns, 1int,
{
    if ns.len() == 0 {
        None
    } else {
        match nodes_props_problem(ns.drop_last(), map) {
            Some(p) => Some(p),
            None => node_props_problem(ns.last(), map),
        }
    }
}

/// Where a props problem is reported.
pub open spec fn props_offset(b: Seq<u8>, span: (usize, usize), p: PropsProblem) -> int {
    if p.0 { attr_offset(b, span, p.1) } else { tag_offset(b, span, p.1) }
}

fn find_params<'a>(map: &'a [(String, Vec<FnParam>)], name: &str) -> (r: Option<&'a Vec<FnParam>>)
    ensures
        match params_from(map@, name@, 0) {
            None => r is None,
            Some(ps) => r matches Some(v) && v@ == ps,
        },
{
    let mut k: usize = 0;
    while k < map.len()
        invariant
            k <= map@.len(),
            params_from(map@, name@, k as int) == params_from(map@, name@, 0),
        decreases map@.len() - k,
    {
        if str_eq(map[k].0.as_str(), name) {
            return Some(&map[k].1);
        }
        k += 1;
    }
    None
}

fn param_named(ps: &Vec<FnParam>, n: &str) -> (r: bool)
    ensures
        r == has_param(ps@, n@),
{
    let mut j: usize = 0;
    while j < ps.len()
        invariant
            j <= ps@.len(),
            forall|i: int| 0 <= i < j ==> (#[trigger] ps@[i]).name@ != n@,
        decreases ps@.len() - j,
    {
        if str_eq(ps[j].name.as_str(), n) {
            return true;
        }
        j += 1;
    }
    false
}

fn attr_named(attrs: &Vec<RsxAttr>, n: &str) -> (r: bool)
    ensures
        r == has_attr(attrs@, n@),
{
    let mut j: usize = 0;
    while j < attrs.len()
        invariant
            j <= attrs@.len(),
            forall|i: int| 0 <= i < j ==> (#[trigger] attrs@[i]).name@ != n@,
        decreases attrs@.len() - j,
    {
        if str_eq(attrs[j].name.as_str(), n) {
            return true;
        }
        j += 1;
    }
    false
}

fn first_unknown_prop(attrs: &Vec<RsxAttr>, ps: &Vec<FnParam>) -> (r: Option<usize>)
    ensures
        match unknown_prop(attrs@, ps@) {
            None => r is None,
            Some(a) => r matches Some(k) && k < attrs@.len() && attrs@[k as int].name@ == a,
        },
{
    let mut k: usize = 0;
    while k < attrs.len()
        invariant
            k <= attrs@.len(),
            unknown_prop(attrs@.take(k as int), ps@) is None,
        decreases attrs@.len() - k,
    {
        proof { assert(attrs@.take(k + 1).drop_last() =~= attrs@.take(k as int)); }
        if !param_named(ps, attrs[k].name.as_str()) {
            proof { lemma_unknown_prop_prefix(attrs@, k as int + 1, ps@); }
            return Some(k);
        }
        k += 1;
    }
    proof { assert(attrs@.take(attrs@.len() as int) =~= attrs@); }
    None
}

proof fn lemma_unknown_prop_prefix(attrs: Seq<RsxAttr>, k: int, ps: Seq<FnParam>)
    requires
        0 <= k <= attrs.len(),
        unknown_prop(attrs.take(k), ps) is Some,
    ensures
        unknown_prop(attrs, ps) == unknown_prop(attrs.take(k), ps),
    decreases attrs.len() - k,
{
    if k < attrs.len() {
        assert(attrs.take(k + 1).drop_last() =~= attrs.take(k));
        lemma_unknown_prop_prefix(attrs, k + 1, ps);
    } else {
        assert(attrs.take(k) =~= attrs);
    }
}

fn first_missing_prop(ps: &Vec<FnParam>, attrs: &Vec<RsxAttr>) -> (r: Option<usize>)
    ensures
        match missing_prop(ps@, attrs@) {
            None => r is None,
            Some(p) => r matches Some(k) && k < ps@.len() && ps@[k as int].name@ == p,
        },
{
    let mut k: usize = 0;
    while k < ps.len()
        invariant
            k <= ps@.len(),
            missing_prop(ps@.take(k as int), attrs@) is None,
        decreases ps@.len() - k,
    {
        proof { assert(ps@.take(k + 1).drop_last() =~= ps@.take(k as int)); }
        if !str_eq(ps[k].name.as_str(), "children") && !attr_named(attrs, ps[k].name.as_str()) {
            proof { lemma_missing_prop_prefix(ps@, k as int + 1, attrs@); }
            return Some(k);
        }
        k += 1;
    }
    proof { assert(ps@.take(ps@.len() as int) =~= ps@); }
    None
}

proof fn lemma_missing_prop_prefix(ps: Seq<FnParam>, k: int, attrs: Seq<RsxAttr>)
    requires
        0 <= k <= ps.len(),
        missing_prop(ps.take(k), attrs) is Some,
    ensures
        missing_prop(ps, attrs) == missing_prop(ps.take(k), attrs),
    decreases ps.len() - k,
{
    if k < ps.len() {
        assert(ps.take(k + 1).drop_last() =~= ps.take(k));
        lemma_missing_prop_prefix(ps, k + 1, attrs);
    } else {
        assert(ps.take(k) =~= ps);
    }
}

/// The props problem of one element, as (at attribute?, name, message).
fn element_props(tag: &String, attrs: &Vec<RsxAttr>, has_children: bool, map: &[(String, Vec<FnParam>)]) -> (r: Option<(bool, String, String)>)
    ensures
        props_view(r) == element_props_problem(tag@, attrs@, has_children, map@),
{
    if !super::is_component_tag(tag.as_str()) {
        return None;
    }
    let snake = super::pascal_to_snake(tag.as_str());
    let ps = match find_params(map, snake.as_str()) {
        None => { return None; },
        Some(ps) => ps,
    };
    let mut m = String::new();
    match first_unknown_prop(attrs, ps) {
        Some(k) => {
            push_str(&mut m, "unknown prop `");
            push_str(&mut m, attrs[k].name.as_str());
            push_str(&mut m, "` on component `");
            push_str(&mut m, tag.as_str());
            push_str(&mut m, "`");
            return Some((true, attrs[k].name.clone(), m));
        },
        None => {},
    }
    match first_missing_prop(ps, attrs) {
        Some(k) => {
            push_str(&mut m, "missing required prop `");
            push_str(&mut m, ps[k].name.as_str());
            push_str(&mut m, "` on component `");
            push_str(&mut m, tag.as_str());
            push_str(&mut m, "`");
            return Some((false, tag.clone(), m));
        },
        None => {},
    }
    if has_children && !param_named(ps, "children") {
        push_str(&mut m, "component `");
        push_str(&mut m, tag.as_str());
        push_str(&mut m, "` does not accept children; add a `children: Vec<HtmlNode>` parameter");
        return Some((false, tag.clone(), m));
    }
    None
}

/// The texts of an optional props problem.
pub open spec fn props_view(p: Option<(bool, String, String)>) -> Option<PropsProblem> {
    match p {
        Some(x) => Some((x.0, x.1@, x.2@)),
        None => None,
    }
}

proof fn lemma_nodes_props_prefix(ns: Seq<RsxNode>, k: int, map: Seq<(String, Vec<FnParam>)>)
    requires
        0 <= k <= ns.len(),
        nodes_props_problem(ns.take(k), map) is Some,
    ensures
        nodes_props_problem(ns, map) == nodes_props_problem(ns.take(k), map),
    decreases ns.len() - k,
{
    if k < ns.len() {
        assert(ns.take(k + 1).drop_last() =~= ns.take(k));
        lemma_nodes_props_prefix(ns, k + 1, map);
    } else {
        assert(ns.take(k) =~= ns);
    }
}

fn node_props(n: &RsxNode, map: &[(String, Vec<FnParam>)]) -> (r: Option<(bool, String, String)>)
    ensures
        props_view(r) == node_props_problem(*n, map@),
    decreases *n, 0int,
{
    match n {
        RsxNode::Element { tag, attrs, children, .. } => {
            match element_props(tag, attrs, children.len() > 0, map) {
                Some(p) => Some(p),
                None => nodes_props(children, map),
            }
        },
        RsxNode::CondAnd { body, .. } => nodes_props(body, map),
        RsxNode::Ternary { if_true, if_false, .. } => match nodes_props(if_true, map) {
            Some(p) => Some(p),
            None => nodes_props(if_false, map),
        },
        _ => None,
    }
}

fn nodes_props(ns: &Vec<RsxNode>, map: &[(String, Vec<FnParam>)]) -> (r: Option<(bool, String, String)>)
    ensures
        props_view(r) == nodes_props_problem(ns@, map@),
    decreases *ns, 1int,
{
    let mut k: usize = 0;
    while k < ns.len()
        invariant
            k <= ns@.len(),
            nodes_props_problem(ns@.take(k as int), map@) is None,
        decreases ns@.len() - k,
    {
        proof { assert(ns@.take(k + 1).drop_last() =~= ns@.take(k as int)); }
        match node_props(&ns[k], map) {
            Some(p) => {
                proof { lemma_nodes_props_prefix(ns@, k as int + 1, map@); }
                return Some(p);
            },
            None => {},
        }
        k += 1;
    }
    proof { assert(ns@.take(ns@.len() as int) =~= ns@); }
    None
}

/// Checks the props of the custom components used in `nodes` against the
/// parameters recorded for them in `component_map` (keyed by snake_case name):
/// no unknown prop, no missing prop (other than `children`), and children only
/// where there is a `children` parameter.
pub fn validate_component_props(
    source: &str,
    file: &PathBuf,
    body_span: (usize, usize),
    nodes: &Vec<RsxNode>,
    component_map: &[(String, Vec<FnParam>)],
) -> (r: Result<(), CompileError>)
    requires
        span_ok(source.spec_bytes(), body_span),
    ensures
        match nodes_props_problem(nodes@, component_map@) {
            None => r is Ok,
            Some(p) => r matches Err(e) && error_at(e, *file, source.spec_bytes(),
                props_offset(source.spec_bytes(), body_span, p), p.2),
        },
{
    match nodes_props(nodes, component_map) {
        None => Ok(()),
        Some((at_attr, name, message)) => {
            let off = if at_attr {
                find_attr_offset(source, body_span, name.as_str())
            } else {
                find_tag_offset(source, body_span, name.as_str())
            };
            Err(error_at_offset(source, file, off, message))
        },
    }
}


/// The top-level Client functions with a name: name and number of parameters.
pub open spec fn client_symbols(fns: Seq<RsxFunction>) -> Seq<(Seq<char>, usize)>
    decreases fns.len(),
{
    if fns.len() == 0 {
        Seq::empty()
    } else {
        let f = fns.last();
        let rest = client_symbols(fns.drop_last());
        match f.name {
            Some(n) => if f.return_type == RsxReturnType::Client { rest.push((n@, f.params@.len() as usize)) } else { rest },
            None => rest,
        }
    }
}

/// The Client functions of `functions` with a name, and their parameter counts.
pub fn collect_client_symbols(functions: &[RsxFunction]) -> (r: Vec<(String, usize)>)
    ensures
        syms_view(r@) == client_symbols(functions@),
{
    let mut out: Vec<(String, usize)> = Vec::new();
    let mut k: usize = 0;
    while k < functions.len()
        invariant
            k <= functions@.len(),
            syms_view(out@) == client_symbols(functions@.take(k as int)),
        decreases functions@.len() - k,
    {
        proof { assert(functions@.take(k + 1).drop_last() =~= functions@.take(k as int)); }
        let f = &functions[k];
        if f.return_type == RsxReturnType::Client {
            match &f.name {
                Some(n) => {
                    out.push((n.clone(), f.params.len()));
                    proof { assert(syms_view(out@) =~= client_symbols(functions@.take(k + 1))); }
                },
                None => {},
            }
        }
        k += 1;
        proof { assert(syms_view(out@) =~= client_symbols(functions@.take(k as int))); }
    }
    proof { assert(functions@.take(functions@.len() as int) =~= functions@); }
    out
}

/// The return type of the first of `fns` from `k` on named `n`.
pub open spec fn local_type_from(fns: Seq<RsxFunction>, n: Seq<char>, k: int) -> Option<RsxReturnType>
    decreases fns.len() - k,
{
    if k >= fns.len() {
        None
    } else if opt_view(fns[k].name) == Some(n) {
        Some(fns[k].return_type)
    } else {
        local_type_from(fns, n, k + 1)
    }
}

/// The type of the first of `syms` from `k` on named `n`.
pub open spec fn symbol_type_from(syms: Seq<(String, RsxReturnType)>, n: Seq<char>, k: int) -> Option<RsxReturnType>
    decreases syms.len() - k,
{
    if k >= syms.len() {
        None
    } else if syms[k].0@ == n {
        Some(syms[k].1)
    } else {
        symbol_type_from(syms, n, k + 1)
    }
}

/// The named functions of `functions` with their return types.
pub fn collect_local_symbols(functions: &[RsxFunction]) -> (r: Vec<(String, RsxReturnType)>)
    ensures
        forall|n: Seq<char>| symbol_type_from(r@, n, 0) == local_type_from(functions@, n, 0),
{
    let mut out: Vec<(String, RsxReturnType)> = Vec::new();
    let mut k: usize = functions.len();
    while k > 0
        invariant
            k <= functions@.len(),
            forall|n: Seq<char>| symbol_type_from(out@, n, 0) == local_type_from(functions@, n, k as int),
        decreases k,
    {
        k -= 1;
        let f = &functions[k];
        match &f.name {
            Some(nm) => {
                let ghost prev = out@;
                let entry = (nm.clone(), f.return_type);
                out.insert(0, entry);
                proof {
                    assert(out@ =~= seq![entry] + prev);
                    assert(opt_view(functions@[k as int].name) == Some(entry.0@));
                    assert forall|n: Seq<char>| symbol_type_from(out@, n, 0) == local_type_from(functions@, n, k as int) by {
                        lemma_symbol_type_shift(prev, entry, n);
                    }
                }
            },
            None => {},
        }
    }
    out
}

proof fn lemma_symbol_type_shift(rest: Seq<(String, RsxReturnType)>, first: (String, RsxReturnType), n: Seq<char>)
    ensures
        symbol_type_from(seq![first] + rest, n, 0) == if first.0@ == n { Some(first.1) } else { symbol_type_from(rest, n, 0) },
{
    let all = seq![first] + rest;
    if first.0@ != n {
        lemma_symbol_type_from_shift(rest, first, n, 0);
    }
}

proof fn lemma_symbol_type_from_shift(rest: Seq<(String, RsxReturnType)>, first: (String, RsxReturnType), n: Seq<char>, k: int)
    requires
        0 <= k <= rest.len(),
    ensures
        symbol_type_from(seq![first] + rest, n, k + 1) == symbol_type_from(rest, n, k),
    decreases rest.len() - k,
{
    let all = seq![first] + rest;
    if k < rest.len() {
        assert(all[k + 1] == rest[k]);
        lemma_symbol_type_from_shift(rest, first, n, k + 1);
    }
}

/// The first type recorded for `name` in `symbols`.
pub fn find_symbol_return_type(symbols: &[(String, RsxReturnType)], name: &str) -> (r: Option<RsxReturnType>)
    ensures
        r == symbol_type_from(symbols@, name@, 0),
{
    let mut k: usize = 0;
    while k < symbols.len()
        invariant
            k <= symbols@.len(),
            symbol_type_from(symbols@, name@, k as int) == symbol_type_from(symbols@, name@, 0),
        decreases symbols@.len() - k,
    {
        if str_eq(symbols[k].0.as_str(), name) {
            return Some(symbols[k].1);
        }
        k += 1;
    }
    None
}

/// The name of a return type.
pub open spec fn return_type_text(rt: RsxReturnType) -> Seq<char> {
    match rt {
        RsxReturnType::Html => "Html"@,
        RsxReturnType::Fragment => "Fragment"@,
        RsxReturnType::Client => "Client"@,
        RsxReturnType::Component => "Component"@,
    }
}

/// The name of a return type.
pub fn return_type_name(rt: RsxReturnType) -> (r: &'static str)
    ensures
        r@ == return_type_text(rt),
{
    match rt {
        RsxReturnType::Html => "Html",
        RsxReturnType::Fragment => "Fragment",
        RsxReturnType::Client => "Client",
        RsxReturnType::Component => "Component",
    }
}

/// The custom component tags used in a node, depth first.
pub open spec fn node_component_tags(n: RsxNode) -> Seq<Seq<char>>
    decreases n, 0int,
{
    match n {
        RsxNode::Element { tag, children, .. } => if super::component_tag(tag@) {
            seq![tag@] + nodes_component_tags(children@)
        } else {
            nodes_component_tags(children@)
        },
        RsxNode::CondAnd { body, .. } => nodes_component_tags(body@),
        RsxNode::Ternary { if_true, if_false, .. } => nodes_component_tags(if_true@) + nodes_component_tags(if_false@),
        _ => Seq::empty(),
    }
}

/// The custom component tags used in a list of nodes, depth first.
pub open spec fn nodes_component_tags(ns: Seq<RsxNode>) -> Seq<Seq<char>>
    decreases ns, 1int,
{
    if ns.len() == 0 {
        Seq::empty()
    } else {
        nodes_component_tags(ns.drop_last()) + node_component_tags(ns.last())
    }
}

/// The texts of a sequence of strings.
pub open spec fn texts(v: Seq<String>) -> Seq<Seq<char>> {
    v.map_values(|s: String| s@)
}

fn node_tags(n: &RsxNode, out: &mut Vec<String>)
    ensures
        texts(final(out)@) == texts(old(out)@) + node_component_tags(*n),
    decreases *n, 0int,
{
    match n {
        RsxNode::Element { tag, children, .. } => {
            if super::is_component_tag(tag.as_str()) {
                out.push(tag.clone());
            }
            let ghost mid = out@;
            nodes_tags(children, out);
            proof {
                if super::component_tag(tag@) {
                    assert(texts(mid) =~= texts(old(out)@).push(tag@));
                    assert(texts(old(out)@) + (seq![tag@] + nodes_component_tags(children@))
                        =~= texts(old(out)@).push(tag@) + nodes_component_tags(children@));
                } else {
                    assert(mid == old(out)@);
                }
            }
        },
        RsxNode::CondAnd { body, .. } => nodes_tags(body, out),
        RsxNode::Ternary { if_true, if_false, .. } => {
            nodes_tags(if_true, out);
            nodes_tags(if_false, out);
            proof {
                assert(texts(old(out)@) + (nodes_component_tags(if_true@) + nodes_component_tags(if_false@))
                    =~= texts(old(out)@) + nodes_component_tags(if_true@) + nodes_component_tags(if_false@));
            }
        },
        _ => {
            proof { assert(texts(old(out)@) + Seq::<Seq<char>>::empty() =~= texts(old(out)@)); }
        },
    }
}

fn nodes_tags(ns: &Vec<RsxNode>, out: &mut Vec<String>)
    ensures
        texts(final(out)@) == texts(old(out)@) + nodes_component_tags(ns@),
    decreases *ns, 1int,
{
    let mut k: usize = 0;
    while k < ns.len()
        invariant
            k <= ns@.len(),
            texts(out@) == texts(old(out)@) + nodes_component_tags(ns@.take(k as int)),
        decreases ns@.len() - k,
    {
        proof { assert(ns@.take(k + 1).drop_last() =~= ns@.take(k as int)); }
        node_tags(&ns[k], out);
        proof {
            assert(texts(old(out)@) + nodes_component_tags(ns@.take(k as int)) + node_component_tags(ns@[k as int])
                =~= texts(old(out)@) + nodes_component_tags(ns@.take(k + 1)));
        }
        k += 1;
    }
    proof {
        assert(ns@.take(ns@.len() as int) =~= ns@);
    }
}

/// The custom component tags used in `nodes`, depth first.
pub fn collect_component_tags(nodes: &Vec<RsxNode>) -> (r: Vec<String>)
    ensures
        texts(r@) == nodes_component_tags(nodes@),
{
    let mut out: Vec<String> = Vec::new();
    nodes_tags(nodes, &mut out);
    proof { assert(texts(Seq::<String>::empty()) + nodes_component_tags(nodes@) =~= nodes_component_tags(nodes@)); }
    out
}


/// Some entry of the component map is named `n`.
pub open spec fn in_component_map(map: Seq<(String, Vec<FnParam>)>, n: Seq<char>) -> bool {
    exists|k: int| 0 <= k < map.len() && (#[trigger] map[k]).0@ == n
}

/// One of `names` is `n`.
pub open spec fn in_names(names: Seq<String>, n: Seq<char>) -> bool {
    exists|k: int| 0 <= k < names.len() && (#[trigger] names[k])@ == n
}

/// What is wrong with a component tag: it resolves to no function, or to one
/// that does not return Fragment.
pub open spec fn tag_problem(
    tag: Seq<char>,
    map: Seq<(String, Vec<FnParam>)>,
    rsx_names: Seq<String>,
    fns: Seq<RsxFunction>,
    imported: Seq<(String, RsxReturnType)>,
) -> Option<Seq<char>> {
    let snake = super::snake_of(vstd::utf8::encode_utf8(tag));
    if in_component_map(map, snake) || in_names(rsx_names, snake) {
        None
    } else {
        let resolved = match local_type_from(fns, snake, 0) {
            Some(t) => Some(t),
            None => symbol_type_from(imported, snake, 0),
        };
        match resolved {
            Some(rt) => if rt != RsxReturnType::Fragment {
                Some("component `"@ + tag + "` must return Fragment (found "@ + return_type_text(rt) + ")"@)
            } else {
                None
            },
            None => Some("unresolved component `"@ + tag + "`; expected a function returning Fragment"@),
        }
    }
}

/// The first of `tags` with a problem, and the message.
pub open spec fn tags_problem(
    tags: Seq<Seq<char>>,
    map: Seq<(String, Vec<FnParam>)>,
    rsx_names: Seq<String>,
    fns: Seq<RsxFunction>,
    imported: Seq<(String, RsxReturnType)>,
) -> Option<(Seq<char>, Seq<char>)>
    decreases tags.len(),
{
    if tags.len() == 0 {
        None
    } else {
        match tags_problem(tags.drop_last(), map, rsx_names, fns, imported) {
            Some(p) => Some(p),
            None => match tag_problem(tags.last(), map, rsx_names, fns, imported) {
                Some(m) => Some((tags.last(), m)),
                None => None,
            },
        }
    }
}

/// The first problem in the parsed body of an Html or Fragment function: event
/// bindings, then component resolution, then props; as offset and message.
pub open spec fn function_problem(
    src: Seq<u8>,
    f: RsxFunction,
    body: Option<Vec<RsxNode>>,
    fns: Seq<RsxFunction>,
    map: Seq<(String, Vec<FnParam>)>,
    rsx_names: Seq<String>,
    imported: Seq<(String, RsxReturnType)>,
) -> Option<(int, Seq<char>)> {
    if f.return_type != RsxReturnType::Html && f.return_type != RsxReturnType::Fragment {
        None
    } else {
        match body {
            None => None,
            Some(nodes) => match nodes_problem(nodes@, client_symbols(fns)) {
                Some(p) => Some((attr_offset(src, f.body_span, p.0), p.1)),
                None => match tags_problem(nodes_component_tags(nodes@), map, rsx_names, fns, imported) {
                    Some(t) => Some((tag_offset(src, f.body_span, t.0), t.1)),
                    None => match nodes_props_problem(nodes@, map) {
                        Some(p) => Some((props_offset(src, f.body_span, p), p.2)),
                        None => None,
                    },
                },
            },
        }
    }
}

/// The first problem among the functions from `k` on.
pub open spec fn resolution_from(
    src: Seq<u8>,
    fns: Seq<RsxFunction>,
    bodies: Seq<Option<Vec<RsxNode>>>,
    map: Seq<(String, Vec<FnParam>)>,
    rsx_names: Seq<String>,
    imported: Seq<(String, RsxReturnType)>,
    k: int,
) -> Option<(int, Seq<char>)>
    decreases fns.len() - k,
{
    if k >= fns.len() {
        None
    } else {
        let body = if 0 <= k < bodies.len() { bodies[k] } else { None };
        match function_problem(src, fns[k], body, fns, map, rsx_names, imported) {
            Some(x) => Some(x),
            None => resolution_from(src, fns, bodies, map, rsx_names, imported, k + 1),
        }
    }
}

proof fn lemma_tags_problem_prefix(
    tags: Seq<Seq<char>>,
    k: int,
    map: Seq<(String, Vec<FnParam>)>,
    rsx_names: Seq<String>,
    fns: Seq<RsxFunction>,
    imported: Seq<(String, RsxReturnType)>,
)
    requires
        0 <= k <= tags.len(),
        tags_problem(tags.take(k), map, rsx_names, fns, imported) is Some,
    ensures
        tags_problem(tags, map, rsx_names, fns, imported) == tags_problem(tags.take(k), map, rsx_names, fns, imported),
    decreases tags.len() - k,
{
    if k < tags.len() {
        assert(tags.take(k + 1).drop_last() =~= tags.take(k));
        lemma_tags_problem_prefix(tags, k + 1, map, rsx_names, fns, imported);
    } else {
        assert(tags.take(k) =~= tags);
    }
}

fn map_has(map: &[(String, Vec<FnParam>)], n: &str) -> (r: bool)
    ensures
        r == in_component_map(map@, n@),
{
    let mut k: usize = 0;
    while k < map.len()
        invariant
            k <= map@.len(),
            forall|j: int| 0 <= j < k ==> (#[trigger] map@[j]).0@ != n@,
        decreases map@.len() - k,
    {
        if str_eq(map[k].0.as_str(), n) {
            return true;
        }
        k += 1;
    }
    false
}

fn names_have(names: &[String], n: &str) -> (r: bool)
    ensures
        r == in_names(names@, n@),
{
    let mut k: usize = 0;
    while k < names.len()
        invariant
            k <= names@.len(),
            forall|j: int| 0 <= j < k ==> (#[trigger] names@[j])@ != n@,
        decreases names@.len() - k,
    {
        if str_eq(names[k].as_str(), n) {
            return true;
        }
        k += 1;
    }
    false
}

fn tag_resolution(
    tag: &String,
    map: &[(String, Vec<FnParam>)],
    rsx_names: &[String],
    functions: &[RsxFunction],
    local: &Vec<(String, RsxReturnType)>,
    imported: &[(String, RsxReturnType)],
) -> (r: Option<String>)
    requires
        forall|n: Seq<char>| symbol_type_from(local@, n, 0) == local_type_from(functions@, n, 0),
    ensures
        opt_view(r) == tag_problem(tag@, map@, rsx_names@, functions@, imported@),
{
    let snake = super::pascal_to_snake(tag.as_str());
    if map_has(map, snake.as_str()) || names_have(rsx_names, snake.as_str()) {
        return None;
    }
    let resolved = match find_symbol_return_type(local.as_slice(), snake.as_str()) {
        Some(t) => Some(t),
        None => find_symbol_return_type(imported, snake.as_str()),
    };
    let mut m = String::new();
    match resolved {
        Some(rt) => {
            if rt != RsxReturnType::Fragment {
                push_str(&mut m, "component `");
                push_str(&mut m, tag.as_str());
                push_str(&mut m, "` must return Fragment (found ");
                push_str(&mut m, return_type_name(rt));
                push_str(&mut m, ")");
                Some(m)
            } else {
                None
            }
        },
        None => {
            push_str(&mut m, "unresolved component `");
            push_str(&mut m, tag.as_str());
            push_str(&mut m, "`; expected a function returning Fragment");
            Some(m)
        },
    }
}

/// Checks the Html and Fragment functions whose bodies were parsed
/// (`parsed_bodies`, index for index): event bindings, then that each custom
/// component tag is in `component_map` or `rsx_component_names` or resolves
/// (among `functions`, then `imported_symbols`) to a function returning
/// Fragment, then component props. The first problem is the error.
pub fn validate_component_resolution(
    source: &str,
    file: &PathBuf,
    functions: &[RsxFunction],
    parsed_bodies: &[Option<Vec<RsxNode>>],
    component_map: &[(String, Vec<FnParam>)],
    rsx_component_names: &[String],
    imported_symbols: &[(String, RsxReturnType)],
) -> (r: Result<(), CompileError>)
    requires
        forall|k: int| 0 <= k < functions@.len() ==> span_ok(source.spec_bytes(), (#[trigger] functions@[k]).body_span),
    ensures
        match resolution_from(source.spec_bytes(), functions@, parsed_bodies@, component_map@, rsx_component_names@,
            imported_symbols@, 0) {
            None => r is Ok,
            Some(x) => r matches Err(e) && error_at(e, *file, source.spec_bytes(), x.0, x.1),
        },
{
    let ghost src = source.spec_bytes();
    let ghost fns = functions@;
    let local = collect_local_symbols(functions);
    let client = collect_client_symbols(functions);
    let mut idx: usize = 0;
    while idx < functions.len()
        invariant
            src == source.spec_bytes(),
            fns == functions@,
            idx <= fns.len(),
            forall|k: int| 0 <= k < fns.len() ==> span_ok(src, (#[trigger] fns[k]).body_span),
            forall|n: Seq<char>| symbol_type_from(local@, n, 0) == local_type_from(fns, n, 0),
            syms_view(client@) == client_symbols(fns),
            resolution_from(src, fns, parsed_bodies@, component_map@, rsx_component_names@, imported_symbols@, idx as int)
                == resolution_from(src, fns, parsed_bodies@, component_map@, rsx_component_names@, imported_symbols@, 0),
        decreases fns.len() - idx,
    {
        let f = &functions[idx];
        proof { assert(span_ok(src, fns[idx as int].body_span)); }
        if (f.return_type == RsxReturnType::Html || f.return_type == RsxReturnType::Fragment) && idx < parsed_bodies.len() {
            match &parsed_bodies[idx] {
                Some(nodes) => {
                    match validate_event_bindings(source, file, f.body_span, nodes, client.as_slice()) {
                        Err(e) => { return Err(e); },
                        Ok(()) => {},
                    }
                    let tags = collect_component_tags(nodes);
                    let mut j: usize = 0;
                    #[verifier::loop_isolation(false)]
                    while j < tags.len()
                        invariant
                            j <= tags@.len(),
                            forall|n: Seq<char>| symbol_type_from(local@, n, 0) == local_type_from(fns, n, 0),
                            fns == functions@,
                            tags_problem(texts(tags@).take(j as int), component_map@, rsx_component_names@, fns, imported_symbols@) is None,
                        decreases tags@.len() - j,
                    {
                        proof { assert(texts(tags@).take(j + 1).drop_last() =~= texts(tags@).take(j as int)); }
                        match tag_resolution(&tags[j], component_map, rsx_component_names, functions, &local, imported_symbols) {
                            Some(m) => {
                                proof {
                                    lemma_tags_problem_prefix(texts(tags@), j as int + 1, component_map@, rsx_component_names@, fns, imported_symbols@);
                                }
                                let off = find_tag_offset(source, f.body_span, tags[j].as_str());
                                return Err(error_at_offset(source, file, off, m));
                            },
                            None => {},
                        }
                        j += 1;
                    }
                    proof { assert(texts(tags@).take(tags@.len() as int) =~= texts(tags@)); }
                    match validate_component_props(source, file, f.body_span, nodes, component_map) {
                        Err(e) => { return Err(e); },
                        Ok(()) => {},
                    }
                },
                None => {},
            }
        }
        idx += 1;
    }
    Ok(())
}


/// The texts of a parameter list: (name, type) pairs.
pub open spec fn params_view(ps: Seq<FnParam>) -> Seq<(Seq<char>, Seq<char>)> {
    ps.map_values(|p: FnParam| (p.name@, p.ty@))
}

/// The texts of a component list: name and parameters.
pub open spec fn components_view(cs: Seq<(String, Vec<FnParam>)>) -> Seq<(Seq<char>, Seq<(Seq<char>, Seq<char>)>)> {
    cs.map_values(|c: (String, Vec<FnParam>)| (c.0@, params_view(c.1@)))
}

/// The named Fragment functions of `fns`, in order, with their parameters.
pub open spec fn local_fragments(fns: Seq<RsxFunction>) -> Seq<(Seq<char>, Seq<(Seq<char>, Seq<char>)>)>
    decreases fns.len(),
{
    if fns.len() == 0 {
        Seq::empty()
    } else {
        let f = fns.last();
        let rest = local_fragments(fns.drop_last());
        match f.name {
            Some(n) => if f.return_type == RsxReturnType::Fragment { rest.push((n@, params_view(f.params@))) } else { rest },
            None => rest,
        }
    }
}

/// A copy of a parameter list.
fn copy_params(ps: &Vec<FnParam>) -> (r: Vec<FnParam>)
    ensures
        params_view(r@) == params_view(ps@),
{
    let mut out: Vec<FnParam> = Vec::new();
    let mut k: usize = 0;
    while k < ps.len()
        invariant
            k <= ps@.len(),
            params_view(out@) == params_view(ps@.take(k as int)),
        decreases ps@.len() - k,
    {
        let ghost prev = out@;
        out.push(FnParam { name: ps[k].name.clone(), ty: ps[k].ty.clone() });
        proof {
            assert(ps@.take(k + 1) =~= ps@.take(k as int).push(ps@[k as int]));
            assert(params_view(out@) =~= params_view(prev).push((ps@[k as int].name@, ps@[k as int].ty@)));
            assert(params_view(ps@.take(k + 1)) =~= params_view(ps@.take(k as int)).push((ps@[k as int].name@, ps@[k as int].ty@)));
        }
        k += 1;
    }
    proof { assert(ps@.take(ps@.len() as int) =~= ps@); }
    out
}

/// The Fragment functions of this file with a name, and their parameters: the
/// components that its RSX can use without an import.
pub fn local_fragment_components(functions: &[RsxFunction]) -> (r: Vec<(String, Vec<FnParam>)>)
    ensures
        components_view(r@) == local_fragments(functions@),
{
    let mut out: Vec<(String, Vec<FnParam>)> = Vec::new();
    let mut k: usize = 0;
    while k < functions.len()
        invariant
            k <= functions@.len(),
            components_view(out@) == local_fragments(functions@.take(k as int)),
        decreases functions@.len() - k,
    {
        proof { assert(functions@.take(k + 1).drop_last() =~= functions@.take(k as int)); }
        let f = &functions[k];
        if f.return_type == RsxReturnType::Fragment {
            match &f.name {
                Some(n) => {
                    out.push((n.clone(), copy_params(&f.params)));
                },
                None => {},
            }
        }
        k += 1;
        proof { assert(components_view(out@) =~= local_fragments(functions@.take(k as int))); }
    }
    proof { assert(functions@.take(functions@.len() as int) =~= functions@); }
    out
}

/// Some component of `cs` is named `n`.
pub open spec fn has_component(cs: Seq<(Seq<char>, Seq<(Seq<char>, Seq<char>)>)>, n: Seq<char>) -> bool {
    exists|k: int| 0 <= k < cs.len() && (#[trigger] cs[k]).0 == n
}

/// `cs` after adding, in order, each named Fragment function of `mfs` that is
/// among the imported `syms` and not yet in the list.
pub open spec fn merged_fragments(
    cs: Seq<(Seq<char>, Seq<(Seq<char>, Seq<char>)>)>,
    syms: Seq<Seq<char>>,
    mfs: Seq<RsxFunction>,
) -> Seq<(Seq<char>, Seq<(Seq<char>, Seq<char>)>)>
    decreases mfs.len(),
{
    if mfs.len() == 0 {
        cs
    } else {
        let prev = merged_fragments(cs, syms, mfs.drop_last());
        let f = mfs.last();
        match f.name {
            Some(n) => if f.return_type == RsxReturnType::Fragment && syms.contains(n@) && !has_component(prev, n@) {
                prev.push((n@, params_view(f.params@)))
            } else {
                prev
            },
            None => prev,
        }
    }
}

fn component_named(cs: &Vec<(String, Vec<FnParam>)>, n: &str) -> (r: bool)
    ensures
        r == has_component(components_view(cs@), n@),
{
    let mut k: usize = 0;
    while k < cs.len()
        invariant
            k <= cs@.len(),
            forall|j: int| 0 <= j < k ==> (#[trigger] cs@[j]).0@ != n@,
        decreases cs@.len() - k,
    {
        if str_eq(cs[k].0.as_str(), n) {
            proof { assert(components_view(cs@)[k as int].0 == n@); }
            return true;
        }
        k += 1;
    }
    proof {
        assert forall|j: int| 0 <= j < components_view(cs@).len() implies (#[trigger] components_view(cs@)[j]).0 != n@ by {
            assert(components_view(cs@)[j].0 == cs@[j].0@);
        }
    }
    false
}

/// Adds the Fragment functions of an imported module (`module_functions`) that
/// the `use` statement names (`symbols`) and that are not known yet.
pub fn add_imported_fragments(
    components: &mut Vec<(String, Vec<FnParam>)>,
    symbols: &[String],
    module_functions: &[RsxFunction],
)
    ensures
        components_view(final(components)@) == merged_fragments(components_view(old(components)@), texts(symbols@), module_functions@),
{
    let ghost start = components_view(components@);
    let mut k: usize = 0;
    while k < module_functions.len()
        invariant
            k <= module_functions@.len(),
            start == components_view(old(components)@),
            components_view(components@) == merged_fragments(start, texts(symbols@), module_functions@.take(k as int)),
        decreases module_functions@.len() - k,
    {
        proof { assert(module_functions@.take(k + 1).drop_last() =~= module_functions@.take(k as int)); }
        let f = &module_functions[k];
        if f.return_type == RsxReturnType::Fragment {
            match &f.name {
                Some(n) => {
                    if names_have(symbols, n.as_str()) && !component_named(components, n.as_str()) {
                        let ghost prev = components@;
                        let ps = copy_params(&f.params);
                        components.push((n.clone(), ps));
                        proof {
                            let w = choose|j: int| 0 <= j < symbols@.len() && (#[trigger] symbols@[j])@ == n@;
                            assert(texts(symbols@)[w] == n@);
                            assert(texts(symbols@).contains(n@));
                            assert(components_view(components@) =~= components_view(prev).push((n@, params_view(f.params@))));
                            assert(components_view(components@) =~= merged_fragments(start, texts(symbols@), module_functions@.take(k + 1)));
                        }
                    } else {
                        proof {
                            assert(texts(symbols@).contains(n@) == in_names(symbols@, n@)) by {
                                if in_names(symbols@, n@) {
                                    let w = choose|j: int| 0 <= j < symbols@.len() && (#[trigger] symbols@[j])@ == n@;
                                    assert(texts(symbols@)[w] == n@);
                                }
                            }
                        }
                    }
                },
                None => {},
            }
        }
        k += 1;
        proof { assert(components_view(components@) =~= merged_fragments(start, texts(symbols@), module_functions@.take(k as int))); }
    }
    proof { assert(module_functions@.take(module_functions@.len() as int) =~= module_functions@); }
}


// ── `use` statements ───────────────────────────────────────────────────

/// A `use` statement: the module path and the imported symbols.
#[derive(Debug)]
pub struct UseStmt {
    pub module_segments: Vec<String>,
    pub symbols: Vec<String>,
}

/// `s` trimmed of white space at both ends.
pub open spec fn trim_text(s: Seq<char>) -> Seq<char> {
    trimmed(s, 0, s.len() as int)
}

/// The pieces of `s` between the separators `c`, scanning from `i` with the
/// current piece starting at `start`.
pub open spec fn char_pieces(s: Seq<char>, c: char, start: int, i: int) -> Seq<Seq<char>>
    decreases s.len() - i,
{
    if i >= s.len() {
        seq![s.subrange(start, s.len() as int)]
    } else if s[i] == c {
        seq![s.subrange(start, i)] + char_pieces(s, c, i + 1, i + 1)
    } else {
        char_pieces(s, c, start, i + 1)
    }
}

/// The pieces of `s` between the separators `::` (taken left to right).
pub open spec fn colon_pieces(s: Seq<char>, start: int, i: int) -> Seq<Seq<char>>
    decreases s.len() - i,
{
    if i >= s.len() {
        seq![s.subrange(start, s.len() as int)]
    } else if i + 1 < s.len() && s[i] == ':' && s[i + 1] == ':' {
        seq![s.subrange(start, i)] + colon_pieces(s, i + 2, i + 2)
    } else {
        colon_pieces(s, start, i + 1)
    }
}

/// `s` without trailing `::` (repeatedly).
pub open spec fn strip_trailing_colons(s: Seq<char>) -> Seq<char>
    decreases s.len(),
{
    if s.len() >= 2 && s[s.len() - 2] == ':' && s[s.len() - 1] == ':' {
        strip_trailing_colons(s.take(s.len() - 2))
    } else {
        s
    }
}

/// The trimmed pieces that are not empty.
pub open spec fn nonempty_trimmed(v: Seq<Seq<char>>) -> Seq<Seq<char>>
    decreases v.len(),
{
    if v.len() == 0 {
        Seq::empty()
    } else {
        let t = trim_text(v.last());
        let rest = nonempty_trimmed(v.drop_last());
        if t.len() == 0 { rest } else { rest.push(t) }
    }
}

/// The trimmed pieces that name a symbol (not empty, `*` or `self`).
pub open spec fn kept_symbols(v: Seq<Seq<char>>) -> Seq<Seq<char>>
    decreases v.len(),
{
    if v.len() == 0 {
        Seq::empty()
    } else {
        let t = trim_text(v.last());
        let rest = kept_symbols(v.drop_last());
        if t.len() == 0 || t == "*"@ || t == "self"@ { rest } else { rest.push(t) }
    }
}

/// The first index at or after `from` of `c` in `s`, or -1.
pub open spec fn first_index(s: Seq<char>, c: char, from: int) -> int
    decreases s.len() - from,
{
    if from >= s.len() {
        -1
    } else if s[from] == c {
        from
    } else {
        first_index(s, c, from + 1)
    }
}

/// The `use` statement a `;`-separated piece of source is, if it is one with a
/// module path and at least one symbol: `use a::b::{X, Y}` or `use a::b::X`.
pub open spec fn use_stmt_of(raw: Seq<char>) -> Option<(Seq<Seq<char>>, Seq<Seq<char>>)> {
    let stmt = trim_text(raw);
    if !(stmt.len() >= 4 && stmt.take(4) == "use "@) {
        None
    } else {
        let path = trim_text(stmt.skip(4));
        if path.len() == 0 {
            None
        } else {
            let open = first_index(path, '{', 0);
            if open >= 0 {
                let close = first_index(path, '}', open);
                if close < 0 {
                    None
                } else {
                    let module_part = strip_trailing_colons(trim_text(path.take(open)));
                    let syms = kept_symbols(char_pieces(trim_text(path.subrange(open + 1, close)), ',', 0, 0));
                    let segs = nonempty_trimmed(colon_pieces(module_part, 0, 0));
                    if syms.len() == 0 || segs.len() == 0 { None } else { Some((segs, syms)) }
                }
            } else {
                let parts = nonempty_trimmed(colon_pieces(path, 0, 0));
                if parts.len() < 2 || parts.last() == "*"@ || parts.last() == "self"@ {
                    None
                } else {
                    Some((parts.drop_last(), seq![parts.last()]))
                }
            }
        }
    }
}

/// The `use` statements of the pieces `v`, in order.
pub open spec fn use_stmts(v: Seq<Seq<char>>) -> Seq<(Seq<Seq<char>>, Seq<Seq<char>>)>
    decreases v.len(),
{
    if v.len() == 0 {
        Seq::empty()
    } else {
        let rest = use_stmts(v.drop_last());
        match use_stmt_of(v.last()) {
            Some(u) => rest.push(u),
            None => rest,
        }
    }
}

/// The texts of a `use` statement.
pub open spec fn use_view(u: UseStmt) -> (Seq<Seq<char>>, Seq<Seq<char>>) {
    (texts(u.module_segments@), texts(u.symbols@))
}

pub(crate) fn pieces_by_char(s: &str, c: char) -> (r: Vec<String>)
    ensures
        texts(r@) == char_pieces(s@, c, 0, 0),
{
    let cs = chars_of(s);
    let n = cs.len();
    let mut out: Vec<String> = Vec::new();
    let mut start: usize = 0;
    let mut i: usize = 0;
    while i < n
        invariant
            cs@ == s@,
            n == cs@.len(),
            start <= i <= n,
            texts(out@) + char_pieces(cs@, c, start as int, i as int) == char_pieces(cs@, c, 0, 0),
        decreases n - i,
    {
        if cs[i] == c {
            let ghost before = texts(out@);
            out.push(string_of(&cs, start, i));
            proof {
                assert(texts(out@) =~= before.push(cs@.subrange(start as int, i as int)));
                assert(before + char_pieces(cs@, c, start as int, i as int)
                    =~= texts(out@) + char_pieces(cs@, c, i + 1, i + 1));
            }
            start = i + 1;
        }
        i += 1;
    }
    let ghost before = texts(out@);
    out.push(string_of(&cs, start, n));
    proof { assert(texts(out@) =~= before + char_pieces(cs@, c, start as int, n as int)); }
    out
}

fn pieces_by_colons(s: &str) -> (r: Vec<String>)
    ensures
        texts(r@) == colon_pieces(s@, 0, 0),
{
    let cs = chars_of(s);
    let n = cs.len();
    let mut out: Vec<String> = Vec::new();
    let mut start: usize = 0;
    let mut i: usize = 0;
    while i < n
        invariant
            cs@ == s@,
            n == cs@.len(),
            start <= i <= n,
            texts(out@) + colon_pieces(cs@, start as int, i as int) == colon_pieces(cs@, 0, 0),
        decreases n - i,
    {
        if i + 1 < n && cs[i] == ':' && cs[i + 1] == ':' {
            let ghost before = texts(out@);
            out.push(string_of(&cs, start, i));
            proof {
                assert(texts(out@) =~= before.push(cs@.subrange(start as int, i as int)));
                assert(before + colon_pieces(cs@, start as int, i as int)
                    =~= texts(out@) + colon_pieces(cs@, i + 2, i + 2));
            }
            start = i + 2;
            i += 2;
        } else {
            i += 1;
        }
    }
    let ghost before = texts(out@);
    out.push(string_of(&cs, start, n));
    proof { assert(texts(out@) =~= before + colon_pieces(cs@, start as int, n as int)); }
    out
}

fn strip_colons(s: &str) -> (r: String)
    ensures
        r@ == strip_trailing_colons(s@),
{
    let cs = chars_of(s);
    let mut end = cs.len();
    proof { assert(cs@.take(end as int) =~= s@); }
    while end >= 2 && cs[end - 2] == ':' && cs[end - 1] == ':'
        invariant
            cs@ == s@,
            end <= cs@.len(),
            strip_trailing_colons(s@) == strip_trailing_colons(cs@.take(end as int)),
        decreases end,
    {
        proof { assert(cs@.take(end as int).take(end - 2) =~= cs@.take(end - 2)); }
        end -= 2;
    }
    proof {
        if end == cs.len() {
            assert(cs@.take(end as int) =~= s@);
        }
    }
    string_of(&cs, 0, end)
}

fn first_char_at(cs: &Vec<char>, c: char, from: usize) -> (r: Option<usize>)
    requires
        from <= cs@.len(),
    ensures
        match r {
            Some(k) => k as int == first_index(cs@, c, from as int) && from <= k < cs@.len() && cs@[k as int] == c,
            None => first_index(cs@, c, from as int) == -1,
        },
{
    let mut k = from;
    while k < cs.len()
        invariant
            from <= k <= cs@.len(),
            first_index(cs@, c, k as int) == first_index(cs@, c, from as int),
        decreases cs@.len() - k,
    {
        if cs[k] == c {
            return Some(k);
        }
        k += 1;
    }
    None
}

fn keep_nonempty(v: Vec<String>) -> (r: Vec<String>)
    ensures
        texts(r@) == nonempty_trimmed(texts(v@)),
{
    let mut out: Vec<String> = Vec::new();
    let mut k: usize = 0;
    while k < v.len()
        invariant
            k <= v@.len(),
            texts(out@) == nonempty_trimmed(texts(v@).take(k as int)),
        decreases v@.len() - k,
    {
        proof { assert(texts(v@).take(k + 1).drop_last() =~= texts(v@).take(k as int)); }
        let t = trim_str(v[k].as_str());
        if !t.as_str().is_empty() {
            out.push(t);
        }
        proof { assert(texts(out@) =~= nonempty_trimmed(texts(v@).take(k + 1))); }
        k += 1;
    }
    proof { assert(texts(v@).take(v@.len() as int) =~= texts(v@)); }
    out
}

fn keep_symbols(v: Vec<String>) -> (r: Vec<String>)
    ensures
        texts(r@) == kept_symbols(texts(v@)),
{
    let mut out: Vec<String> = Vec::new();
    let mut k: usize = 0;
    while k < v.len()
        invariant
            k <= v@.len(),
            texts(out@) == kept_symbols(texts(v@).take(k as int)),
        decreases v@.len() - k,
    {
        proof { assert(texts(v@).take(k + 1).drop_last() =~= texts(v@).take(k as int)); }
        let t = trim_str(v[k].as_str());
        if !t.as_str().is_empty() && !str_eq(t.as_str(), "*") && !str_eq(t.as_str(), "self") {
            out.push(t);
        }
        proof { assert(texts(out@) =~= kept_symbols(texts(v@).take(k + 1))); }
        k += 1;
    }
    proof { assert(texts(v@).take(v@.len() as int) =~= texts(v@)); }
    out
}

/// The `use` statement that a `;`-separated piece of source is, if any.
fn use_stmt(raw: &str) -> (r: Option<UseStmt>)
    ensures
        match r {
            Some(u) => use_stmt_of(raw@) == Some(use_view(u)),
            None => use_stmt_of(raw@) is None,
        },
{
    let stmt = trim_str(raw);
    let sc = chars_of(stmt.as_str());
    if !(sc.len() >= 4 && sc[0] == 'u' && sc[1] == 's' && sc[2] == 'e' && sc[3] == ' ') {
        proof {
            reveal_strlit("use ");
            if sc@.len() >= 4 && sc@.take(4) == "use "@ {
                assert(sc@.take(4)[0] == 'u' && sc@.take(4)[1] == 's' && sc@.take(4)[2] == 'e' && sc@.take(4)[3] == ' ');
            }
        }
        return None;
    }
    proof {
        reveal_strlit("use ");
        assert(sc@.take(4) =~= "use "@);
    }
    let rest = string_of(&sc, 4, sc.len());
    proof { assert(rest@ =~= stmt@.skip(4)); }
    let path = trim_str(rest.as_str());
    let pc = chars_of(path.as_str());
    if pc.len() == 0 {
        return None;
    }
    match first_char_at(&pc, '{', 0) {
        Some(open) => {
            match first_char_at(&pc, '}', open) {
                None => { return None; },
                Some(close) => {
                    let head = string_of(&pc, 0, open);
                    proof { assert(head@ =~= path@.take(open as int)); }
                    let head_t = trim_str(head.as_str());
                    let module_part = strip_colons(head_t.as_str());
                    let inner = string_of(&pc, open + 1, close);
                    let inner_t = trim_str(inner.as_str());
                    let symbols = keep_symbols(pieces_by_char(inner_t.as_str(), ','));
                    let segments = keep_nonempty(pieces_by_colons(module_part.as_str()));
                    if symbols.len() == 0 || segments.len() == 0 {
                        return None;
                    }
                    Some(UseStmt { module_segments: segments, symbols })
                },
            }
        },
        None => {
            let mut parts = keep_nonempty(pieces_by_colons(path.as_str()));
            if parts.len() < 2 {
                return None;
            }
            let ghost all = texts(parts@);
            let symbol = parts.pop().unwrap();
            if str_eq(symbol.as_str(), "*") || str_eq(symbol.as_str(), "self") {
                return None;
            }
            let mut symbols: Vec<String> = Vec::new();
            symbols.push(symbol);
            proof {
                assert(texts(parts@) =~= all.drop_last());
                assert(texts(symbols@) =~= seq![all.last()]);
            }
            Some(UseStmt { module_segments: parts, symbols })
        },
    }
}

/// The `use` statements of a source (split at `;`): each with a module path and
/// the symbols it imports (`*` and `self` are not symbols).
pub fn parse_use_statements(source: &str) -> (r: Vec<UseStmt>)
    ensures
        r@.map_values(|u: UseStmt| use_view(u)) == use_stmts(char_pieces(source@, ';', 0, 0)),
{
    let pieces = pieces_by_char(source, ';');
    let ghost ps = texts(pieces@);
    let mut out: Vec<UseStmt> = Vec::new();
    let mut k: usize = 0;
    while k < pieces.len()
        invariant
            ps == texts(pieces@),
            ps == char_pieces(source@, ';', 0, 0),
            k <= pieces@.len(),
            out@.map_values(|u: UseStmt| use_view(u)) == use_stmts(ps.take(k as int)),
        decreases pieces@.len() - k,
    {
        proof { assert(ps.take(k + 1).drop_last() =~= ps.take(k as int)); }
        match use_stmt(pieces[k].as_str()) {
            Some(u) => {
                let ghost before = out@;
                out.push(u);
                proof {
                    assert(out@.map_values(|u: UseStmt| use_view(u)) =~= before.map_values(|u: UseStmt| use_view(u)).push(use_view(u)));
                }
            },
            None => {},
        }
        k += 1;
    }
    proof { assert(ps.take(pieces@.len() as int) =~= ps); }
    out
}

} // verus!
