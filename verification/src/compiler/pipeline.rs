//! The decisions of compiling one source file: reporting boundary violations,
//! assembling the server output and falling back when compaction fails.

use vstd::prelude::*;
use std::path::PathBuf;
use super::CompileError;
use super::boundary::BoundaryViolation;
use vstd::string::StringSliceAdditionalSpecFns;
use super::{fn_start_from, find_fn_start};
use super::scanner::{RsxFunction, RsxReturnType, FnParam};
use super::parser::{RsxNode, RsxAttr, RsxAttrValue, attrs_view, attr_view, NodeView, AttrView, AttrValueView, node_view, nodes_view};
use super::codegen::{children_items, generate_children_expr, is_event_name, node_code, wrap_each, child_calls, child_call, attrs_code, attr_code};
use super::{snake_of, component_tag, is_component_tag, pascal_to_snake};
use super::wasm_codegen::{bytes_text, span_text, span_text_of};
use super::tokenizer::{tokenize, lex, toks_view};
use super::parser::{parse, rsx_parse};
use super::clone_path;
use crate::text::{trimmed, trim_str};
use super::minify::{MinifyError, minify_rust_generated, minified, rust_from};
use crate::text::{decimal, push_decimal, push_str};

verus! {

/// The report of one boundary violation found in `file`.
pub open spec fn violation_text(v: BoundaryViolation, file: Seq<char>) -> Seq<char> {
    "error: "@ + v.message@ + "\n  --> "@ + file + ":"@ + decimal(v.line as nat) + ":"@
        + decimal(v.col as nat) + "\n   |\n   = help: "@ + v.help@
}

/// The reports of all violations, separated by blank lines.
pub open spec fn boundary_message(vs: Seq<BoundaryViolation>, file: Seq<char>) -> Seq<char>
    decreases vs.len(),
{
    if vs.len() == 0 {
        Seq::empty()
    } else if vs.len() == 1 {
        violation_text(vs[0], file)
    } else {
        boundary_message(vs.drop_last(), file) + "\n\n"@ + violation_text(vs.last(), file)
    }
}

/// Formats all boundary violations of a file into one message.
pub fn boundary_error_message(violations: &[BoundaryViolation], file: &str) -> (r: String)
    ensures
        r@ == boundary_message(violations@, file@),
{
    let mut msg = String::new();
    let mut i: usize = 0;
    while i < violations.len()
        invariant
            i <= violations@.len(),
            msg@ == boundary_message(violations@.subrange(0, i as int), file@),
        decreases violations@.len() - i,
    {
        let ghost before = msg@;
        if i > 0 {
            push_str(&mut msg, "\n\n");
        }
        let v = &violations[i];
        push_str(&mut msg, "error: ");
        push_str(&mut msg, v.message.as_str());
        push_str(&mut msg, "\n  --> ");
        push_str(&mut msg, file);
        push_str(&mut msg, ":");
        push_decimal(&mut msg, v.line);
        push_str(&mut msg, ":");
        push_decimal(&mut msg, v.col);
        push_str(&mut msg, "\n   |\n   = help: ");
        push_str(&mut msg, v.help.as_str());
        proof {
            let w = violations@.subrange(0, i + 1);
            assert(w.drop_last() =~= violations@.subrange(0, i as int));
            assert(w.last() == violations@[i as int]);
            if i == 0 {
                assert(msg@ =~= violation_text(violations@[0], file@));
            } else {
                assert(msg@ =~= before + "\n\n"@ + violation_text(violations@[i as int], file@));
            }
        }
        i += 1;
    }
    proof { assert(violations@.subrange(0, violations@.len() as int) =~= violations@); }
    msg
}

/// The compile error that reports the boundary violations of a file: at the
/// position of the first one, with all of them in its message; none when there
/// are no violations.
pub fn boundary_error(violations: &[BoundaryViolation], file: PathBuf, file_text: &str) -> (r: Option<CompileError>)
    ensures
        violations@.len() == 0 <==> r is None,
        r matches Some(e) ==> {
            &&& e.file == file
            &&& e.line == violations@[0].line
            &&& e.col == violations@[0].col
            &&& e.message@ == boundary_message(violations@, file_text@)
        },
{
    if violations.len() == 0 {
        return None;
    }
    let message = boundary_error_message(violations, file_text);
    Some(CompileError { file, line: violations[0].line, col: violations[0].col, message })
}

/// Where the text after a dropped function resumes: past its closing brace and
/// the newline after it, if any.
pub open spec fn resume_after(b: Seq<u8>, body_end: int) -> int {
    let p = body_end + 1;
    if p < b.len() && b[p] == 0x0A { p + 1 } else { p }
}

/// The functions from `i` on lie in order after position `last` (the server
/// output can be cut out of the source along their spans).
pub open spec fn spans_in_order(b: Seq<u8>, fns: Seq<RsxFunction>, i: int, last: int) -> bool
    decreases fns.len() - i,
{
    if i < 0 || i >= fns.len() {
        last <= b.len()
    } else {
        let f = fns[i];
        if f.return_type is Client || f.return_type is Component {
            &&& last <= fn_start_from(b, f.return_type_span.0 as int)
            &&& f.return_type_span.0 <= b.len()
            &&& f.body_span.1 + 1 <= b.len()
            &&& spans_in_order(b, fns, i + 1, resume_after(b, f.body_span.1 as int))
        } else {
            &&& last <= f.return_type_span.0 <= f.return_type_span.1 <= f.body_span.0 <= f.body_span.1 <= b.len()
            &&& spans_in_order(b, fns, i + 1, f.body_span.1 as int)
        }
    }
}

/// The server output from function `i` on, the source text resuming at `last`:
/// Client and Component functions are dropped with their signature; Html and
/// Fragment functions get `HtmlDocument` or `Vec<HtmlNode>` as return type and
/// their compiled body in place of the RSX.
pub open spec fn server_from(b: Seq<u8>, fns: Seq<RsxFunction>, bodies: Seq<Seq<char>>, i: int, last: int) -> Seq<char>
    decreases fns.len() - i,
{
    if i < 0 || i >= fns.len() {
        bytes_text(b, last, b.len() as int)
    } else {
        let f = fns[i];
        if f.return_type is Client || f.return_type is Component {
            bytes_text(b, last, fn_start_from(b, f.return_type_span.0 as int))
                + server_from(b, fns, bodies, i + 1, resume_after(b, f.body_span.1 as int))
        } else {
            bytes_text(b, last, f.return_type_span.0 as int)
                + (if f.return_type is Html { "HtmlDocument"@ } else { "Vec<HtmlNode>"@ })
                + bytes_text(b, f.return_type_span.1 as int, f.body_span.0 as int)
                + "\n    "@ + bodies[i]
                + server_from(b, fns, bodies, i + 1, f.body_span.1 as int)
        }
    }
}

/// The server source of a file whose RSX functions are `functions`, with
/// `bodies[i]` the compiled body of function `i` (unused for Client and
/// Component functions).
pub fn server_source(source: &str, functions: &[RsxFunction], bodies: &[String]) -> (r: String)
    requires
        bodies@.len() == functions@.len(),
        spans_in_order(source.spec_bytes(), functions@, 0, 0),
    ensures
        r@ == server_from(source.spec_bytes(), functions@, bodies@.map_values(|s: String| s@), 0, 0),
{
    let ghost b = source.spec_bytes();
    let ghost bv = bodies@.map_values(|s: String| s@);
    let len = source.as_bytes().len();
    let mut out = String::new();
    let mut last: usize = 0;
    let mut i: usize = 0;
    proof { assert(Seq::<char>::empty() + server_from(b, functions@, bv, 0, 0) =~= server_from(b, functions@, bv, 0, 0)); }
    while i < functions.len()
        invariant
            b == source.spec_bytes(),
            len == b.len(),
            bv == bodies@.map_values(|s: String| s@),
            bodies@.len() == functions@.len(),
            i <= functions@.len(),
            spans_in_order(b, functions@, i as int, last as int),
            out@ + server_from(b, functions@, bv, i as int, last as int) == server_from(b, functions@, bv, 0, 0),
        decreases functions@.len() - i,
    {
        let f = &functions[i];
        let ghost before = out@;
        let is_client = match f.return_type {
            RsxReturnType::Client | RsxReturnType::Component => true,
            _ => false,
        };
        if is_client {
            let start = find_fn_start(source, f.return_type_span.0);
            let piece = span_text_of(source, (last, start));
            push_str(&mut out, piece.as_str());
            let mut next = f.body_span.1 + 1;
            if next < len && source.as_bytes()[next] == 0x0A {
                next += 1;
            }
            proof {
                assert(out@ + server_from(b, functions@, bv, i + 1, next as int)
                    =~= before + server_from(b, functions@, bv, i as int, last as int));
            }
            last = next;
        } else {
            let p1 = span_text_of(source, (last, f.return_type_span.0));
            push_str(&mut out, p1.as_str());
            match f.return_type {
                RsxReturnType::Html => push_str(&mut out, "HtmlDocument"),
                _ => push_str(&mut out, "Vec<HtmlNode>"),
            }
            let p2 = span_text_of(source, (f.return_type_span.1, f.body_span.0));
            push_str(&mut out, p2.as_str());
            push_str(&mut out, "\n    ");
            push_str(&mut out, bodies[i].as_str());
            proof {
                assert(bv[i as int] == bodies@[i as int]@);
                assert(out@ + server_from(b, functions@, bv, i + 1, f.body_span.1 as int)
                    =~= before + server_from(b, functions@, bv, i as int, last as int));
            }
            last = f.body_span.1;
        }
        i += 1;
    }
    let rest = span_text_of(source, (last, len));
    push_str(&mut out, rest.as_str());
    proof { assert(out@ =~= server_from(b, functions@, bv, 0, 0)); }
    out
}

/// The server output compacted, or kept as it is when compaction fails (with
/// the error, which the caller reports as a warning).
pub fn minify_or_keep(output: &str) -> (r: (String, Option<MinifyError>))
    ensures
        r.1 is None ==> minified(output.spec_bytes(), rust_from(output.spec_bytes(), 0, false, false), Ok(r.0)),
        r.1 matches Some(e) ==> r.0@ == output@
            && minified(output.spec_bytes(), rust_from(output.spec_bytes(), 0, false, false), Err(e)),
{
    match minify_rust_generated(output) {
        Ok(s) => (s, None),
        Err(e) => (output.to_owned(), Some(e)),
    }
}

} // verus!

verus! {

/// Names as plain text.
pub open spec fn names_view(v: Seq<String>) -> Seq<Seq<char>> {
    v.map_values(|s: String| s@)
}

/// The mount point that stands for an RSX component on the server.
pub open spec fn mount_text(snake: Seq<char>) -> Seq<char> {
    "div().attr(\"data-volki-component\", \""@ + snake + "\").into_node()"@
}

/// The parameters of the first fragment component called `name`.
pub open spec fn find_params(comps: Seq<(String, Vec<FnParam>)>, name: Seq<char>) -> Option<Seq<FnParam>>
    decreases comps.len(),
{
    if comps.len() == 0 {
        None
    } else if comps[0].0@ == name {
        Some(comps[0].1@)
    } else {
        find_params(comps.drop_first(), name)
    }
}

/// The first attribute called `name`.
pub open spec fn attr_named(attrs: Seq<RsxAttr>, name: Seq<char>) -> Option<RsxAttr>
    decreases attrs.len(),
{
    if attrs.len() == 0 {
        None
    } else if attrs[0].name@ == name {
        Some(attrs[0])
    } else {
        attr_named(attrs.drop_first(), name)
    }
}

/// The argument passed for parameter `p`: the children expression for
/// `children`, else the attribute of that name (a literal quoted, an expression
/// as it is), or nothing.
pub open spec fn arg_text(p: FnParam, attrs: Seq<RsxAttr>, kids: Seq<char>) -> Seq<char> {
    if p.name@ == "children"@ {
        kids
    } else {
        match attr_named(attrs, p.name@) {
            Some(a) => match a.value {
                RsxAttrValue::Literal(v) => seq!['"'] + v@ + seq!['"'],
                RsxAttrValue::Expr(e) => e@,
            },
            None => Seq::empty(),
        }
    }
}

/// The arguments for parameters `ps`, separated by `, `.
pub open spec fn args_text(ps: Seq<FnParam>, attrs: Seq<RsxAttr>, kids: Seq<char>) -> Seq<char>
    decreases ps.len(),
{
    if ps.len() == 0 {
        Seq::empty()
    } else if ps.len() == 1 {
        arg_text(ps[0], attrs, kids)
    } else {
        args_text(ps.drop_last(), attrs, kids) + ", "@ + arg_text(ps.last(), attrs, kids)
    }
}

/// The snake-case name of a component tag.
pub open spec fn snake_name(tag: Seq<char>) -> Seq<char> {
    snake_of(vstd::utf8::encode_utf8(tag))
}

/// The builder call for one attribute (as `codegen::attr_code`, on views).
pub open spec fn v_attr_code(a: AttrView) -> Seq<char> {
    match a.value {
        AttrValueView::Literal(v) => if a.name == "class"@ {
            ".class(\""@ + v + "\")"@
        } else if a.name == "id"@ {
            ".id(\""@ + v + "\")"@
        } else {
            ".attr(\""@ + a.name + "\", \""@ + v + "\")"@
        },
        AttrValueView::Expr(e) => if is_event_name(a.name) {
            ".attr(\"data-volki-"@ + a.name + "\", \""@ + e + "\")"@
        } else {
            Seq::empty()
        },
    }
}

/// The builder calls for the attributes (as `codegen::attrs_code`, on views).
pub open spec fn v_attrs_code(attrs: Seq<AttrView>) -> Seq<char>
    decreases attrs.len(),
{
    if attrs.len() == 0 { Seq::empty() } else { v_attrs_code(attrs.drop_last()) + v_attr_code(attrs.last()) }
}

/// The expression that builds a node (as `codegen::node_code`, on views).
pub open spec fn v_node_code(n: NodeView) -> Seq<char>
    decreases n, 0int,
{
    match n {
        NodeView::Element { tag, attrs, children, .. } => tag + "()"@ + v_attrs_code(attrs) + v_child_calls(children) + ".into_node()"@,
        NodeView::Text(t) => "text(\""@ + t + "\")"@,
        NodeView::Expr(e) => "("@ + e + ").into_children()"@,
        NodeView::CondAnd { condition, body } => "{ let mut __c = Vec::new(); if "@ + condition + " { "@ + v_wrap_each("__c.push("@, "); "@, body) + "} __c }"@,
        NodeView::Ternary { condition, if_true, if_false } => if if_true.len() == 1 && if_false.len() == 1 {
            "if "@ + condition + " { "@ + v_node_code(if_true[0]) + " } else { "@ + v_node_code(if_false[0]) + " }"@
        } else {
            "if "@ + condition + " { let mut __t = Vec::new(); "@ + v_wrap_each("__t.push("@, "); "@, if_true)
                + "__t } else { let mut __f = Vec::new(); "@ + v_wrap_each("__f.push("@, "); "@, if_false) + "__f }"@
        },
    }
}

/// `pre <node> post` for each node (as `codegen::wrap_each`, on views).
pub open spec fn v_wrap_each(pre: Seq<char>, post: Seq<char>, ns: Seq<NodeView>) -> Seq<char>
    decreases ns, 1int,
{
    if ns.len() == 0 { Seq::empty() } else { v_wrap_each(pre, post, ns.drop_last()) + pre + v_node_code(ns.last()) + post }
}

/// The builder calls that add children (as `codegen::child_calls`, on views).
pub open spec fn v_child_calls(ns: Seq<NodeView>) -> Seq<char>
    decreases ns, 1int,
{
    if ns.len() == 0 { Seq::empty() } else { v_child_calls(ns.drop_last()) + v_child_call(ns.last()) }
}

/// The builder call that adds one child (as `codegen::child_call`, on views).
pub open spec fn v_child_call(c: NodeView) -> Seq<char>
    decreases c, 1int,
{
    match c {
        NodeView::Text(t) => ".text(\""@ + t + "\")"@,
        NodeView::Expr(e) => ".children(("@ + e + ").into_children())"@,
        NodeView::Element { .. } => ".child("@ + v_node_code(c) + ")"@,
        NodeView::CondAnd { .. } => ".children("@ + v_node_code(c) + ")"@,
        NodeView::Ternary { if_true, if_false, .. } => if if_true.len() == 1 && if_false.len() == 1 {
            ".child("@ + v_node_code(c) + ")"@
        } else {
            ".children("@ + v_node_code(c) + ")"@
        },
    }
}

/// The statement that collects one node into `__c` (as `codegen::children_item`).
pub open spec fn v_children_item(n: NodeView) -> Seq<char> {
    match n {
        NodeView::Expr(e) => "__c.extend(("@ + e + ").into_children()); "@,
        NodeView::CondAnd { condition, body } => "if "@ + condition + " { "@ + v_wrap_each("__c.push("@, "); "@, body) + "} "@,
        NodeView::Ternary { condition, if_true, if_false } => "if "@ + condition + " { "@
            + v_wrap_each("__c.push("@, "); "@, if_true) + "} else { "@ + v_wrap_each("__c.push("@, "); "@, if_false) + "} "@,
        _ => "__c.push("@ + v_node_code(n) + "); "@,
    }
}

/// The statements that collect the nodes into `__c` (as `codegen::children_items`).
pub open spec fn v_children_items(ns: Seq<NodeView>) -> Seq<char>
    decreases ns.len(),
{
    if ns.len() == 0 { Seq::empty() } else { v_children_items(ns.drop_last()) + v_children_item(ns.last()) }
}

/// The children argument of a component call.
pub open spec fn kids_text(resolved: Seq<NodeView>) -> Seq<char> {
    if resolved.len() == 0 {
        "Vec::new()"@
    } else {
        "{ let mut __c = Vec::new(); "@ + v_children_items(resolved) + "__c }"@
    }
}

/// What resolving the components of the nodes gives.
pub open spec fn resolve_view(ns: Seq<RsxNode>, comps: Seq<(String, Vec<FnParam>)>, rsx: Seq<Seq<char>>) -> Seq<NodeView>
    decreases ns, 1int,
{
    if ns.len() == 0 { Seq::empty() } else { resolve_view(ns.drop_last(), comps, rsx).push(resolve_node(ns.last(), comps, rsx)) }
}

/// What resolving the components of a node gives: an RSX component becomes its
/// mount point, a fragment component a call of its function with the tag's
/// attributes and resolved children as arguments; every other node keeps its
/// shape with its children resolved.
pub open spec fn resolve_node(n: RsxNode, comps: Seq<(String, Vec<FnParam>)>, rsx: Seq<Seq<char>>) -> NodeView
    decreases n, 0int,
{
    match n {
        RsxNode::Element { tag, attrs, children, self_closing } => {
            let snake = snake_name(tag@);
            if component_tag(tag@) && rsx.contains(snake) {
                NodeView::Expr(mount_text(snake))
            } else if component_tag(tag@) && find_params(comps, snake) is Some {
                NodeView::Expr(snake + seq!['('] + args_text(find_params(comps, snake)->0, attrs@,
                    kids_text(resolve_view(children@, comps, rsx))) + seq![')'])
            } else {
                NodeView::Element { tag: tag@, attrs: attrs_view(attrs@), children: resolve_view(children@, comps, rsx), self_closing }
            }
        },
        RsxNode::CondAnd { condition, body } => NodeView::CondAnd { condition: condition@, body: resolve_view(body@, comps, rsx) },
        RsxNode::Ternary { condition, if_true, if_false } => NodeView::Ternary {
            condition: condition@,
            if_true: resolve_view(if_true@, comps, rsx),
            if_false: resolve_view(if_false@, comps, rsx),
        },
        RsxNode::Text(t) => NodeView::Text(t@),
        RsxNode::Expr(e) => NodeView::Expr(e@),
    }
}

} // verus!

verus! {

proof fn lemma_resolve_len(ns: Seq<RsxNode>, comps: Seq<(String, Vec<FnParam>)>, rsx: Seq<Seq<char>>)
    ensures
        resolve_view(ns, comps, rsx).len() == ns.len(),
    decreases ns.len(),
{
    if ns.len() > 0 {
        lemma_resolve_len(ns.drop_last(), comps, rsx);
    }
}

proof fn lemma_nodes_view_at(ns: Seq<RsxNode>)
    ensures
        nodes_view(ns).len() == ns.len(),
        forall|i: int| 0 <= i < ns.len() ==> #[trigger] nodes_view(ns)[i] == node_view(ns[i]),
    decreases ns.len(),
{
    if ns.len() > 0 {
        lemma_nodes_view_at(ns.drop_last());
        assert forall|i: int| 0 <= i < ns.len() implies #[trigger] nodes_view(ns)[i] == node_view(ns[i]) by {
            if i < ns.len() - 1 {
                assert(nodes_view(ns)[i] == nodes_view(ns.drop_last())[i]);
                assert(ns.drop_last()[i] == ns[i]);
            }
        }
    }
}

proof fn lemma_nodes_view_split(ns: Seq<RsxNode>)
    requires
        ns.len() > 0,
    ensures
        nodes_view(ns).drop_last() == nodes_view(ns.drop_last()),
        nodes_view(ns).last() == node_view(ns.last()),
        nodes_view(ns).len() > 0,
{
    assert(nodes_view(ns).drop_last() =~= nodes_view(ns.drop_last()));
}

proof fn lemma_attrs_code_view(attrs: Seq<RsxAttr>)
    ensures
        attrs_code(attrs) == v_attrs_code(attrs_view(attrs)),
    decreases attrs.len(),
{
    if attrs.len() > 0 {
        lemma_attrs_code_view(attrs.drop_last());
        assert(attrs_view(attrs).drop_last() =~= attrs_view(attrs.drop_last()));
        assert(attrs_view(attrs).last() == attr_view(attrs.last()));
        assert(attr_code(attrs.last()) == v_attr_code(attr_view(attrs.last())));
    }
}

proof fn lemma_node_code_view(n: RsxNode)
    ensures
        node_code(n) == v_node_code(node_view(n)),
    decreases n, 0int,
{
    match n {
        RsxNode::Element { tag, attrs, children, .. } => {
            lemma_attrs_code_view(attrs@);
            lemma_child_calls_view(children@);
        },
        RsxNode::CondAnd { condition, body } => {
            lemma_wrap_view("__c.push("@, "); "@, body@);
        },
        RsxNode::Ternary { condition, if_true, if_false } => {
            lemma_nodes_view_at(if_true@);
            lemma_nodes_view_at(if_false@);
            lemma_wrap_view("__t.push("@, "); "@, if_true@);
            lemma_wrap_view("__f.push("@, "); "@, if_false@);
            if if_true@.len() == 1 && if_false@.len() == 1 {
                lemma_node_code_view(if_true@[0]);
                lemma_node_code_view(if_false@[0]);
            }
        },
        _ => {},
    }
}

proof fn lemma_wrap_view(pre: Seq<char>, post: Seq<char>, ns: Seq<RsxNode>)
    ensures
        wrap_each(pre, post, ns) == v_wrap_each(pre, post, nodes_view(ns)),
    decreases ns, 1int,
{
    if ns.len() > 0 {
        lemma_nodes_view_split(ns);
        lemma_wrap_view(pre, post, ns.drop_last());
        lemma_node_code_view(ns.last());
    }
}

proof fn lemma_child_calls_view(ns: Seq<RsxNode>)
    ensures
        child_calls(ns) == v_child_calls(nodes_view(ns)),
    decreases ns, 1int,
{
    if ns.len() > 0 {
        lemma_nodes_view_split(ns);
        lemma_child_calls_view(ns.drop_last());
        lemma_child_call_view(ns.last());
    }
}

proof fn lemma_child_call_view(c: RsxNode)
    ensures
        child_call(c) == v_child_call(node_view(c)),
    decreases c, 1int,
{
    lemma_node_code_view(c);
    if let RsxNode::Ternary { if_true, if_false, .. } = c {
        lemma_nodes_view_at(if_true@);
        lemma_nodes_view_at(if_false@);
    }
}

proof fn lemma_children_items_view(ns: Seq<RsxNode>)
    ensures
        children_items(ns) == v_children_items(nodes_view(ns)),
    decreases ns.len(),
{
    if ns.len() > 0 {
        lemma_nodes_view_split(ns);
        lemma_children_items_view(ns.drop_last());
        let n = ns.last();
        lemma_node_code_view(n);
        match n {
            RsxNode::CondAnd { body, .. } => { lemma_wrap_view("__c.push("@, "); "@, body@); },
            RsxNode::Ternary { if_true, if_false, .. } => {
                lemma_wrap_view("__c.push("@, "); "@, if_true@);
                lemma_wrap_view("__c.push("@, "); "@, if_false@);
            },
            _ => {},
        }
    }
}

/// A copy of the attributes.
fn copy_attrs(attrs: &Vec<RsxAttr>) -> (r: Vec<RsxAttr>)
    ensures
        attrs_view(r@) == attrs_view(attrs@),
{
    let mut out: Vec<RsxAttr> = Vec::new();
    let mut i: usize = 0;
    while i < attrs.len()
        invariant
            i <= attrs@.len(),
            attrs_view(out@) == attrs_view(attrs@.subrange(0, i as int)),
        decreases attrs@.len() - i,
    {
        let a = &attrs[i];
        let value = match &a.value {
            RsxAttrValue::Literal(v) => RsxAttrValue::Literal(v.clone()),
            RsxAttrValue::Expr(e) => RsxAttrValue::Expr(e.clone()),
        };
        let ghost before = out@;
        let na = RsxAttr { name: a.name.clone(), value };
        proof { assert(attr_view(na) == attr_view(attrs@[i as int])); }
        out.push(na);
        proof {
            assert(attrs_view(out@) =~= attrs_view(before).push(attr_view(na)));
            assert(attrs_view(attrs@.subrange(0, i + 1)) =~= attrs_view(attrs@.subrange(0, i as int)).push(attr_view(attrs@[i as int])));
        }
        i += 1;
    }
    proof { assert(attrs@.subrange(0, attrs@.len() as int) =~= attrs@); }
    out
}

/// Whether `names` holds `n`.
fn holds_name(names: &[String], n: &str) -> (r: bool)
    ensures
        r == names_view(names@).contains(n@),
{
    let mut i: usize = 0;
    while i < names.len()
        invariant
            i <= names@.len(),
            forall|k: int| 0 <= k < i ==> names@[k]@ != n@,
        decreases names@.len() - i,
    {
        if crate::text::str_eq(names[i].as_str(), n) {
            proof { assert(names_view(names@)[i as int] == n@); }
            return true;
        }
        i += 1;
    }
    proof {
        let v = names_view(names@);
        assert forall|k: int| 0 <= k < v.len() implies v[k] != n@ by { assert(v[k] == names@[k]@); }
    }
    false
}

/// The parameters of the first fragment component called `name`.
fn find_component<'a>(comps: &'a [(String, Vec<FnParam>)], name: &str) -> (r: Option<&'a Vec<FnParam>>)
    ensures
        match find_params(comps@, name@) {
            Some(ps) => r matches Some(v) && v@ == ps,
            None => r is None,
        },
{
    let mut i: usize = 0;
    proof { assert(comps@.subrange(0, comps@.len() as int) =~= comps@); }
    while i < comps.len()
        invariant
            i <= comps@.len(),
            find_params(comps@, name@) == find_params(comps@.subrange(i as int, comps@.len() as int), name@),
        decreases comps@.len() - i,
    {
        proof {
            let t = comps@.subrange(i as int, comps@.len() as int);
            assert(t.drop_first() =~= comps@.subrange(i + 1, comps@.len() as int));
            assert(t[0] == comps@[i as int]);
        }
        if crate::text::str_eq(comps[i].0.as_str(), name) {
            return Some(&comps[i].1);
        }
        i += 1;
    }
    None
}

/// The first attribute called `name`.
fn attr_named_in<'a>(attrs: &'a Vec<RsxAttr>, name: &str) -> (r: Option<&'a RsxAttr>)
    ensures
        match attr_named(attrs@, name@) {
            Some(a) => r matches Some(x) && *x == a,
            None => r is None,
        },
{
    let mut i: usize = 0;
    proof { assert(attrs@.subrange(0, attrs@.len() as int) =~= attrs@); }
    while i < attrs.len()
        invariant
            i <= attrs@.len(),
            attr_named(attrs@, name@) == attr_named(attrs@.subrange(i as int, attrs@.len() as int), name@),
        decreases attrs@.len() - i,
    {
        proof {
            let t = attrs@.subrange(i as int, attrs@.len() as int);
            assert(t.drop_first() =~= attrs@.subrange(i + 1, attrs@.len() as int));
            assert(t[0] == attrs@[i as int]);
        }
        if crate::text::str_eq(attrs[i].name.as_str(), name) {
            return Some(&attrs[i]);
        }
        i += 1;
    }
    None
}

/// Resolves component tags into function call expressions: an RSX component
/// becomes its mount point, a fragment component a call of its function; the
/// children of other nodes are resolved in turn.
pub fn resolve_components(nodes: &Vec<RsxNode>, components: &[(String, Vec<FnParam>)], rsx_components: &[String]) -> (r: Vec<RsxNode>)
    ensures
        nodes_view(r@) == resolve_view(nodes@, components@, names_view(rsx_components@)),
    decreases *nodes, 1int,
{
    let ghost rv = names_view(rsx_components@);
    let mut out: Vec<RsxNode> = Vec::new();
    let mut i: usize = 0;
    proof { assert(nodes@.subrange(0, 0) =~= Seq::<RsxNode>::empty()); }
    while i < nodes.len()
        invariant
            i <= nodes@.len(),
            rv == names_view(rsx_components@),
            nodes_view(out@) == resolve_view(nodes@.subrange(0, i as int), components@, rv),
        decreases nodes@.len() - i,
    {
        let n = &nodes[i];
        let o: RsxNode = match n {
            RsxNode::Element { tag, attrs, children, self_closing } => {
                let mut done: Option<RsxNode> = None;
                if is_component_tag(tag.as_str()) {
                    let snake = pascal_to_snake(tag.as_str());
                    if holds_name(rsx_components, snake.as_str()) {
                        let mut m = String::new();
                        push_str(&mut m, "div().attr(\"data-volki-component\", \"");
                        push_str(&mut m, snake.as_str());
                        push_str(&mut m, "\").into_node()");
                        proof {
                            reveal_strlit("div().attr(\"data-volki-component\", \"");
                            reveal_strlit("\").into_node()");
                            assert(m@ =~= mount_text(snake@));
                        }
                        done = Some(RsxNode::Expr(m));
                    } else {
                        match find_component(components, snake.as_str()) {
                            Some(params) => {
                                let call = build_component_call(snake.as_str(), params, attrs, children, components, rsx_components);
                                done = Some(RsxNode::Expr(call));
                            },
                            None => {},
                        }
                    }
                }
                match done {
                    Some(x) => x,
                    None => {
                        let rc = resolve_components(children, components, rsx_components);
                        RsxNode::Element { tag: tag.clone(), attrs: copy_attrs(attrs), children: rc, self_closing: *self_closing }
                    },
                }
            },
            RsxNode::CondAnd { condition, body } => {
                let rb = resolve_components(body, components, rsx_components);
                RsxNode::CondAnd { condition: condition.clone(), body: rb }
            },
            RsxNode::Ternary { condition, if_true, if_false } => {
                let rt = resolve_components(if_true, components, rsx_components);
                let rf = resolve_components(if_false, components, rsx_components);
                RsxNode::Ternary { condition: condition.clone(), if_true: rt, if_false: rf }
            },
            RsxNode::Text(t) => RsxNode::Text(t.clone()),
            RsxNode::Expr(e) => RsxNode::Expr(e.clone()),
        };
        proof {
            assert(node_view(o) == resolve_node(nodes@[i as int], components@, rv));
            let w = nodes@.subrange(0, i + 1);
            assert(w.drop_last() =~= nodes@.subrange(0, i as int));
            assert(w.last() == nodes@[i as int]);
            assert(out@.push(o).drop_last() =~= out@);
        }
        out.push(o);
        i += 1;
    }
    proof { assert(nodes@.subrange(0, nodes@.len() as int) =~= nodes@); }
    out
}

/// The call of the function of a fragment component: its parameters in order,
/// each given the tag's attribute of that name, or the resolved children.
pub fn build_component_call(
    fn_name: &str,
    params: &Vec<FnParam>,
    attrs: &Vec<RsxAttr>,
    children: &Vec<RsxNode>,
    components: &[(String, Vec<FnParam>)],
    rsx_components: &[String],
) -> (r: String)
    ensures
        r@ == fn_name@ + seq!['('] + args_text(params@, attrs@,
            kids_text(resolve_view(children@, components@, names_view(rsx_components@)))) + seq![')'],
    decreases *children, 2int,
{
    let resolved = resolve_components(children, components, rsx_components);
    let kids = if children.len() == 0 {
        "Vec::new()".to_owned()
    } else {
        generate_children_expr(&resolved)
    };
    let ghost target = kids_text(resolve_view(children@, components@, names_view(rsx_components@)));
    proof {
        reveal_strlit("Vec::new()");
        lemma_resolve_len(children@, components@, names_view(rsx_components@));
        lemma_children_items_view(resolved@);
        assert(kids@ == target);
    }
    let mut call = String::new();
    push_str(&mut call, fn_name);
    push_str(&mut call, "(");
    let ghost head = call@;
    let mut i: usize = 0;
    proof {
        reveal_strlit("(");
        assert(head =~= fn_name@ + seq!['(']);
        assert(call@ =~= head + args_text(params@.subrange(0, 0), attrs@, kids@));
    }
    while i < params.len()
        invariant
            i <= params@.len(),
            call@ == head + args_text(params@.subrange(0, i as int), attrs@, kids@),
        decreases params@.len() - i,
    {
        let ghost before = call@;
        if i > 0 {
            push_str(&mut call, ", ");
        }
        let p = &params[i];
        let ghost arg_start = call@;
        proof { reveal_strlit("children"); }
        if crate::text::str_eq(p.name.as_str(), "children") {
            push_str(&mut call, kids.as_str());
        } else {
            match attr_named_in(attrs, p.name.as_str()) {
                Some(a) => match &a.value {
                    RsxAttrValue::Literal(v) => {
                        call.push('"');
                        push_str(&mut call, v.as_str());
                        call.push('"');
                    },
                    RsxAttrValue::Expr(e) => {
                        push_str(&mut call, e.as_str());
                    },
                },
                None => {},
            }
        }
        proof {
            assert(call@ =~= arg_start + arg_text(params@[i as int], attrs@, kids@));
            let w = params@.subrange(0, i + 1);
            assert(w.drop_last() =~= params@.subrange(0, i as int));
            assert(w.last() == params@[i as int]);
            if i == 0 {
                assert(w[0] == params@[0]);
                assert(call@ =~= head + args_text(w, attrs@, kids@));
            } else {
                reveal_strlit(", ");
                assert(call@ =~= head + args_text(w, attrs@, kids@));
            }
        }
        i += 1;
    }
    push_str(&mut call, ")");
    proof {
        reveal_strlit(")");
        assert(params@.subrange(0, params@.len() as int) =~= params@);
        assert(call@ =~= fn_name@ + seq!['('] + args_text(params@, attrs@, target) + seq![')']);
    }
    call
}


/// The nodes of one function body, as plain values: none for a client or component
/// function; else the parse of the trimmed body text, or the message of the first
/// error in tokenizing or parsing it.
pub open spec fn body_nodes(b: Seq<u8>, f: RsxFunction) -> Result<Option<Seq<NodeView>>, Seq<char>> {
    match f.return_type {
        RsxReturnType::Client => Ok(None),
        RsxReturnType::Component => Ok(None),
        _ => {
            let body = span_text(b, f.body_span);
            match lex(trimmed(body, 0, body.len() as int), 0, false) {
                Err((m, _)) => Err(m),
                Ok(ts) => match rsx_parse(ts) {
                    Ok(ns) => Ok(Some(ns)),
                    Err(m) => Err(m),
                },
            }
        },
    }
}

/// The bodies of `fs` in order, or the first error among them.
pub open spec fn bodies_nodes(b: Seq<u8>, fs: Seq<RsxFunction>) -> Result<Seq<Option<Seq<NodeView>>>, Seq<char>>
    decreases fs.len(),
{
    if fs.len() == 0 {
        Ok(Seq::empty())
    } else {
        match bodies_nodes(b, fs.drop_last()) {
            Err(m) => Err(m),
            Ok(v) => match body_nodes(b, fs.last()) {
                Err(m) => Err(m),
                Ok(x) => Ok(v.push(x)),
            },
        }
    }
}

/// A parsed body as plain values.
pub open spec fn parsed_view(o: Option<Vec<RsxNode>>) -> Option<Seq<NodeView>> {
    match o {
        Some(v) => Some(nodes_view(v@)),
        None => None,
    }
}

/// Parses the body of every function that returns HTML or a fragment (none for
/// client and component functions), stopping at the first tokenizer or parser error.
pub fn parse_bodies(source: &str, file: &PathBuf, functions: &[RsxFunction]) -> (r: Result<Vec<Option<Vec<RsxNode>>>, CompileError>)
    requires
        forall|i: int| 0 <= i < functions@.len()
            ==> (#[trigger] functions@[i]).body_span.0 <= functions@[i].body_span.1 <= source.spec_bytes().len(),
    ensures
        match bodies_nodes(source.spec_bytes(), functions@) {
            Ok(v) => r matches Ok(out) && out@.len() == v.len()
                && forall|k: int| 0 <= k < v.len() ==> parsed_view(#[trigger] out@[k]) == v[k],
            Err(m) => r matches Err(e) && e.message@ == m && e.file == *file,
        },
{
    let ghost b = source.spec_bytes();
    let mut out: Vec<Option<Vec<RsxNode>>> = Vec::new();
    let mut i: usize = 0;
    while i < functions.len()
        invariant
            i <= functions@.len(),
            b == source.spec_bytes(),
            forall|j: int| 0 <= j < functions@.len()
                ==> (#[trigger] functions@[j]).body_span.0 <= functions@[j].body_span.1 <= b.len(),
            bodies_nodes(b, functions@.subrange(0, i as int)) matches Ok(v) && out@.len() == v.len()
                && forall|k: int| 0 <= k < v.len() ==> parsed_view(#[trigger] out@[k]) == v[k],
        decreases functions@.len() - i,
    {
        let f = &functions[i];
        let ghost pre = functions@.subrange(0, i as int);
        let ghost nxt = functions@.subrange(0, i + 1);
        proof {
            assert(nxt.drop_last() =~= pre);
            assert(nxt.last() == functions@[i as int]);
        }
        match f.return_type {
            RsxReturnType::Client | RsxReturnType::Component => {
                let ghost v0 = out@;
                out.push(None);
                proof {
                    let v = bodies_nodes(b, pre)->Ok_0;
                    assert(bodies_nodes(b, nxt) == Ok::<Seq<Option<Seq<NodeView>>>, Seq<char>>(v.push(None)));
                    assert forall|k: int| 0 <= k < v.len() + 1 implies parsed_view(#[trigger] out@[k]) == v.push(None)[k] by {
                        if k < v.len() {
                            assert(out@[k] == v0[k]);
                        }
                    }
                }
            },
            _ => {
                let body = span_text_of(source, f.body_span);
                let text = trim_str(body.as_str());
                match tokenize(text.as_str(), clone_path(file)) {
                    Err(e) => {
                        proof {
                            lemma_bodies_err(b, functions@, i as int);
                        }
                        return Err(e);
                    },
                    Ok(tokens) => match parse(&tokens, clone_path(file)) {
                        Err(e) => {
                            proof {
                                lemma_bodies_err(b, functions@, i as int);
                            }
                            return Err(e);
                        },
                        Ok(nodes) => {
                            let ghost v0 = out@;
                            let ghost pv = nodes_view(nodes@);
                            out.push(Some(nodes));
                            proof {
                                let v = bodies_nodes(b, pre)->Ok_0;
                                assert(bodies_nodes(b, nxt) == Ok::<Seq<Option<Seq<NodeView>>>, Seq<char>>(v.push(Some(pv))));
                                assert forall|k: int| 0 <= k < v.len() + 1 implies parsed_view(#[trigger] out@[k]) == v.push(Some(pv))[k] by {
                                    if k < v.len() {
                                        assert(out@[k] == v0[k]);
                                    }
                                }
                            }
                        },
                    },
                }
            },
        }
        i += 1;
    }
    proof { assert(functions@.subrange(0, functions@.len() as int) =~= functions@); }
    Ok(out)
}

/// Once a body fails, so do all the bodies from the first to any later one.
proof fn lemma_bodies_err(b: Seq<u8>, fs: Seq<RsxFunction>, i: int)
    requires
        0 <= i < fs.len(),
        bodies_nodes(b, fs.subrange(0, i)) is Ok,
        body_nodes(b, fs[i]) is Err,
    ensures
        bodies_nodes(b, fs) == Err::<Seq<Option<Seq<NodeView>>>, Seq<char>>(body_nodes(b, fs[i])->Err_0),
    decreases fs.len(),
{
    if fs.len() == i + 1 {
        assert(fs.drop_last() =~= fs.subrange(0, i));
        assert(fs.last() == fs[i]);
    } else {
        assert(fs.drop_last().subrange(0, i) =~= fs.subrange(0, i));
        assert(fs.drop_last()[i] == fs[i]);
        lemma_bodies_err(b, fs.drop_last(), i);
    }
}

} // verus!
