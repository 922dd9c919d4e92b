//! Code generator: turns RSX trees into Rust builder code.

use vstd::prelude::*;
use super::parser::{RsxAttr, RsxAttrValue, RsxNode};
use vstd::string::StrSliceExecFns;
use crate::text::{push_str, str_eq, starts_with, occurs_at};

verus! {

/// `name` names an event handler: it starts with `on` and is longer than that.
pub open spec fn is_event_name(name: Seq<char>) -> bool {
    occurs_at(name, "on"@, 0) && name.len() > 2
}

/// The builder call for one attribute.
pub open spec fn attr_code(a: RsxAttr) -> Seq<char> {
    match a.value {
        RsxAttrValue::Literal(v) => if a.name@ == "class"@ {
            ".class(\""@ + v@ + "\")"@
        } else if a.name@ == "id"@ {
            ".id(\""@ + v@ + "\")"@
        } else {
            ".attr(\""@ + a.name@ + "\", \""@ + v@ + "\")"@
        },
        RsxAttrValue::Expr(e) => if is_event_name(a.name@) {
            ".attr(\"data-volki-"@ + a.name@ + "\", \""@ + e@ + "\")"@
        } else {
            Seq::empty()
        },
    }
}

/// The builder calls for the attributes, in order.
pub open spec fn attrs_code(attrs: Seq<RsxAttr>) -> Seq<char>
    decreases attrs.len(),
{
    if attrs.len() == 0 { Seq::empty() } else { attrs_code(attrs.drop_last()) + attr_code(attrs.last()) }
}

/// The expression that builds one node.
pub open spec fn node_code(n: RsxNode) -> Seq<char>
    decreases n, 0int,
{
    match n {
        RsxNode::Element { tag, attrs, children, .. } => tag@ + "()"@ + attrs_code(attrs@) + child_calls(children@) + ".into_node()"@,
        RsxNode::Text(t) => "text(\""@ + t@ + "\")"@,
        RsxNode::Expr(e) => "("@ + e@ + ").into_children()"@,
        RsxNode::CondAnd { condition, body } => "{ let mut __c = Vec::new(); if "@ + condition@ + " { "@ + wrap_each("__c.push("@, "); "@, body@) + "} __c }"@,
        RsxNode::Ternary { condition, if_true, if_false } => if if_true@.len() == 1 && if_false@.len() == 1 {
            "if "@ + condition@ + " { "@ + node_code(if_true@[0]) + " } else { "@ + node_code(if_false@[0]) + " }"@
        } else {
            "if "@ + condition@ + " { let mut __t = Vec::new(); "@ + wrap_each("__t.push("@, "); "@, if_true@)
                + "__t } else { let mut __f = Vec::new(); "@ + wrap_each("__f.push("@, "); "@, if_false@) + "__f }"@
        },
    }
}

/// `pre <node> post` for each node, in order.
pub open spec fn wrap_each(pre: Seq<char>, post: Seq<char>, ns: Seq<RsxNode>) -> Seq<char>
    decreases ns, 1int,
{
    if ns.len() == 0 {
        Seq::empty()
    } else {
        wrap_each(pre, post, ns.drop_last()) + pre + node_code(ns.last()) + post
    }
}

/// The builder calls that add the children of an element.
pub open spec fn child_calls(ns: Seq<RsxNode>) -> Seq<char>
    decreases ns, 1int,
{
    if ns.len() == 0 {
        Seq::empty()
    } else {
        child_calls(ns.drop_last()) + child_call(ns.last())
    }
}

/// The builder call that adds one child.
pub open spec fn child_call(c: RsxNode) -> Seq<char>
    decreases c, 1int,
{
    match c {
        RsxNode::Text(t) => ".text(\""@ + t@ + "\")"@,
        RsxNode::Expr(e) => ".children(("@ + e@ + ").into_children())"@,
        RsxNode::Element { .. } => ".child("@ + node_code(c) + ")"@,
        RsxNode::CondAnd { .. } => ".children("@ + node_code(c) + ")"@,
        RsxNode::Ternary { if_true, if_false, .. } => if if_true@.len() == 1 && if_false@.len() == 1 {
            ".child("@ + node_code(c) + ")"@
        } else {
            ".children("@ + node_code(c) + ")"@
        },
    }
}


/// Whether `name` names an event handler attribute.
pub fn is_event_attr(name: &str) -> (r: bool)
    ensures
        r == is_event_name(name@),
{
    starts_with(name, "on") && name.unicode_len() > 2
}

/// Appends the builder call for one attribute.
fn gen_attr(a: &RsxAttr, out: &mut String)
    ensures
        final(out)@ == old(out)@ + attr_code(*a),
{
    let name = a.name.as_str();
    match &a.value {
        RsxAttrValue::Literal(v) => {
            if str_eq(name, "class") {
                push_str(out, ".class(\"");
                push_str(out, v.as_str());
                push_str(out, "\")");
            } else if str_eq(name, "id") {
                push_str(out, ".id(\"");
                push_str(out, v.as_str());
                push_str(out, "\")");
            } else {
                push_str(out, ".attr(\"");
                push_str(out, name);
                push_str(out, "\", \"");
                push_str(out, v.as_str());
                push_str(out, "\")");
            }
        },
        RsxAttrValue::Expr(e) => {
            if is_event_attr(name) {
                push_str(out, ".attr(\"data-volki-");
                push_str(out, name);
                push_str(out, "\", \"");
                push_str(out, e.as_str());
                push_str(out, "\")");
            } else {
                proof { assert(old(out)@ + Seq::<char>::empty() =~= old(out)@); }
            }
        },
    }
    proof { assert(out@ =~= old(out)@ + attr_code(*a)); }
}

/// Appends the builder calls of all attributes.
fn gen_attrs(attrs: &Vec<RsxAttr>, out: &mut String)
    ensures
        final(out)@ == old(out)@ + attrs_code(attrs@),
{
    let ghost start = out@;
    let mut i: usize = 0;
    proof { assert(attrs@.subrange(0, 0) =~= Seq::<RsxAttr>::empty()); assert(start + Seq::<char>::empty() =~= start); }
    while i < attrs.len()
        invariant
            i <= attrs@.len(),
            out@ == start + attrs_code(attrs@.subrange(0, i as int)),
        decreases attrs@.len() - i,
    {
        gen_attr(&attrs[i], out);
        proof {
            let w = attrs@.subrange(0, i + 1);
            assert(w.drop_last() =~= attrs@.subrange(0, i as int));
            assert(out@ =~= start + attrs_code(w));
        }
        i += 1;
    }
    proof { assert(attrs@.subrange(0, attrs@.len() as int) =~= attrs@); }
}

/// Appends the expression that builds `node`.
fn gen_node(node: &RsxNode, out: &mut String)
    ensures
        final(out)@ == old(out)@ + node_code(*node),
    decreases *node, 0int,
{
    match node {
        RsxNode::Element { tag, attrs, children, .. } => {
            push_str(out, tag.as_str());
            push_str(out, "()");
            gen_attrs(attrs, out);
            gen_child_calls(children, out);
            push_str(out, ".into_node()");
        },
        RsxNode::Text(t) => {
            push_str(out, "text(\"");
            push_str(out, t.as_str());
            push_str(out, "\")");
        },
        RsxNode::Expr(e) => {
            push_str(out, "(");
            push_str(out, e.as_str());
            push_str(out, ").into_children()");
        },
        RsxNode::CondAnd { condition, body } => {
            push_str(out, "{ let mut __c = Vec::new(); if ");
            push_str(out, condition.as_str());
            push_str(out, " { ");
            gen_each("__c.push(", "); ", body, out);
            push_str(out, "} __c }");
        },
        RsxNode::Ternary { condition, if_true, if_false } => {
            if if_true.len() == 1 && if_false.len() == 1 {
                push_str(out, "if ");
                push_str(out, condition.as_str());
                push_str(out, " { ");
                gen_node(&if_true[0], out);
                push_str(out, " } else { ");
                gen_node(&if_false[0], out);
                push_str(out, " }");
            } else {
                push_str(out, "if ");
                push_str(out, condition.as_str());
                push_str(out, " { let mut __t = Vec::new(); ");
                gen_each("__t.push(", "); ", if_true, out);
                push_str(out, "__t } else { let mut __f = Vec::new(); ");
                gen_each("__f.push(", "); ", if_false, out);
                push_str(out, "__f }");
            }
        },
    }
    proof { assert(out@ =~= old(out)@ + node_code(*node)); }
}

/// Appends `pre <node> post` for each node.
fn gen_each(pre: &str, post: &str, ns: &Vec<RsxNode>, out: &mut String)
    ensures
        final(out)@ == old(out)@ + wrap_each(pre@, post@, ns@),
    decreases *ns, 1int,
{
    let ghost start = out@;
    let mut i: usize = 0;
    proof { assert(ns@.subrange(0, 0) =~= Seq::<RsxNode>::empty()); assert(start + Seq::<char>::empty() =~= start); }
    while i < ns.len()
        invariant
            i <= ns@.len(),
            out@ == start + wrap_each(pre@, post@, ns@.subrange(0, i as int)),
        decreases ns@.len() - i,
    {
        push_str(out, pre);
        gen_node(&ns[i], out);
        push_str(out, post);
        proof {
            let w = ns@.subrange(0, i + 1);
            assert(w.drop_last() =~= ns@.subrange(0, i as int));
            assert(out@ =~= start + wrap_each(pre@, post@, w));
        }
        i += 1;
    }
    proof { assert(ns@.subrange(0, ns@.len() as int) =~= ns@); }
}

/// Appends the builder call that adds one child.
fn gen_child_call(c: &RsxNode, out: &mut String)
    ensures
        final(out)@ == old(out)@ + child_call(*c),
    decreases *c, 1int,
{
    match c {
        RsxNode::Text(t) => {
            push_str(out, ".text(\"");
            push_str(out, t.as_str());
            push_str(out, "\")");
        },
        RsxNode::Expr(e) => {
            push_str(out, ".children((");
            push_str(out, e.as_str());
            push_str(out, ").into_children())");
        },
        RsxNode::Element { .. } => {
            push_str(out, ".child(");
            gen_node(c, out);
            push_str(out, ")");
        },
        RsxNode::CondAnd { .. } => {
            push_str(out, ".children(");
            gen_node(c, out);
            push_str(out, ")");
        },
        RsxNode::Ternary { if_true, if_false, .. } => {
            if if_true.len() == 1 && if_false.len() == 1 {
                push_str(out, ".child(");
            } else {
                push_str(out, ".children(");
            }
            gen_node(c, out);
            push_str(out, ")");
        },
    }
    proof { assert(out@ =~= old(out)@ + child_call(*c)); }
}

/// Appends the builder calls that add the children.
fn gen_child_calls(ns: &Vec<RsxNode>, out: &mut String)
    ensures
        final(out)@ == old(out)@ + child_calls(ns@),
    decreases *ns, 2int,
{
    let ghost start = out@;
    let mut i: usize = 0;
    proof { assert(ns@.subrange(0, 0) =~= Seq::<RsxNode>::empty()); assert(start + Seq::<char>::empty() =~= start); }
    while i < ns.len()
        invariant
            i <= ns@.len(),
            out@ == start + child_calls(ns@.subrange(0, i as int)),
        decreases ns@.len() - i,
    {
        gen_child_call(&ns[i], out);
        proof {
            let w = ns@.subrange(0, i + 1);
            assert(w.drop_last() =~= ns@.subrange(0, i as int));
            assert(out@ =~= start + child_calls(w));
        }
        i += 1;
    }
    proof { assert(ns@.subrange(0, ns@.len() as int) =~= ns@); }
}


/// The value of the first literal attribute named `name`.
pub open spec fn find_literal(attrs: Seq<RsxAttr>, name: Seq<char>) -> Option<Seq<char>>
    decreases attrs.len(),
{
    if attrs.len() == 0 {
        None
    } else {
        match attrs[0].value {
            RsxAttrValue::Literal(v) if attrs[0].name@ == name => Some(v@),
            _ => find_literal(attrs.drop_first(), name),
        }
    }
}

/// The document-builder call of one top-level node of a `-> Html` body.
pub open spec fn top_item(n: RsxNode) -> Seq<char> {
    match n {
        RsxNode::Element { tag, attrs, children, self_closing } => {
            if !self_closing && tag@ == "Style"@ {
                if children@.len() > 0 && children@[0] is Expr {
                    "        .inline_style("@ + children@[0]->Expr_0@ + ")\n"@
                } else {
                    Seq::empty()
                }
            } else if !self_closing && tag@ == "Head"@ {
                wrap_each("        .head_node(\n            "@, "\n        )\n"@, children@)
            } else if self_closing && tag@ == "Stylesheet"@ {
                match find_literal(attrs@, "href"@) {
                    Some(v) => "        .stylesheet(\""@ + v + "\")\n"@,
                    None => Seq::empty(),
                }
            } else {
                "        .body_node(\n            "@ + node_code(n) + "\n        )\n"@
            }
        },
        RsxNode::CondAnd { .. } => "        .body_nodes("@ + node_code(n) + ")\n"@,
        RsxNode::Ternary { if_true, if_false, .. } => if if_true@.len() == 1 && if_false@.len() == 1 {
            "        .body_node(\n            "@ + node_code(n) + "\n        )\n"@
        } else {
            "        .body_nodes("@ + node_code(n) + ")\n"@
        },
        RsxNode::Expr(e) => "        .body_nodes(("@ + e@ + ").into_children())\n"@,
        _ => "        .body_node(\n            "@ + node_code(n) + "\n        )\n"@,
    }
}

/// The document-builder calls of the top-level nodes.
pub open spec fn top_items(ns: Seq<RsxNode>) -> Seq<char>
    decreases ns.len(),
{
    if ns.len() == 0 { Seq::empty() } else { top_items(ns.drop_last()) + top_item(ns.last()) }
}

/// The call that loads the client glue script, if any.
pub open spec fn glue_code(glue: Option<Seq<char>>) -> Seq<char> {
    match glue {
        Some(u) => "        .script_module(\""@ + u + "\")\n"@,
        None => Seq::empty(),
    }
}

/// A character of CSS inside a Rust string literal.
pub open spec fn css_char(c: char) -> Seq<char> {
    if c == '"' { "\\\""@ } else if c == '\\' { "\\\\"@ } else { seq![c] }
}

/// CSS with `"` and `\` escaped for a Rust string literal.
pub open spec fn css_escape(s: Seq<char>) -> Seq<char>
    decreases s.len(),
{
    if s.len() == 0 { Seq::empty() } else { css_escape(s.drop_last()) + css_char(s.last()) }
}

/// A `-> Html` body for `nodes`, with the optional glue script.
pub open spec fn html_fn_code(ns: Seq<RsxNode>, glue: Option<Seq<char>>) -> Seq<char> {
    "HtmlDocument::new()\n"@ + top_items(ns) + glue_code(glue)
}

/// A `-> Html` body with generated utility CSS first.
pub open spec fn html_fn_styled_code(ns: Seq<RsxNode>, css: Seq<char>, glue: Option<Seq<char>>) -> Seq<char> {
    "HtmlDocument::new()\n"@
        + (if css.len() > 0 { "        .inline_style(\""@ + css_escape(css) + "\")\n"@ } else { Seq::empty() })
        + top_items(ns) + glue_code(glue)
}

/// The statements of a `-> Fragment` body for one top-level node.
pub open spec fn fragment_item(n: RsxNode) -> Seq<char> {
    match n {
        RsxNode::Expr(e) => "    __rsx_nodes.extend(("@ + e@ + ").into_children());\n"@,
        RsxNode::CondAnd { condition, body } => "    if "@ + condition@ + " {\n"@
            + wrap_each("        __rsx_nodes.push("@, ");\n"@, body@) + "    }\n"@,
        RsxNode::Ternary { condition, if_true, if_false } => if if_true@.len() == 1 && if_false@.len() == 1 {
            "    __rsx_nodes.push(if "@ + condition@ + " { "@ + node_code(if_true@[0]) + " } else { "@
                + node_code(if_false@[0]) + " });\n"@
        } else {
            "    if "@ + condition@ + " {\n"@ + wrap_each("        __rsx_nodes.push("@, ");\n"@, if_true@)
                + "    } else {\n"@ + wrap_each("        __rsx_nodes.push("@, ");\n"@, if_false@) + "    }\n"@
        },
        _ => "    __rsx_nodes.push(\n        "@ + node_code(n) + "\n    );\n"@,
    }
}

/// The statements of a `-> Fragment` body.
pub open spec fn fragment_items(ns: Seq<RsxNode>) -> Seq<char>
    decreases ns.len(),
{
    if ns.len() == 0 { Seq::empty() } else { fragment_items(ns.drop_last()) + fragment_item(ns.last()) }
}

/// The statements that collect one node into `__c`.
pub open spec fn children_item(n: RsxNode) -> Seq<char> {
    match n {
        RsxNode::Expr(e) => "__c.extend(("@ + e@ + ").into_children()); "@,
        RsxNode::CondAnd { condition, body } => "if "@ + condition@ + " { "@ + wrap_each("__c.push("@, "); "@, body@) + "} "@,
        RsxNode::Ternary { condition, if_true, if_false } => "if "@ + condition@ + " { "@
            + wrap_each("__c.push("@, "); "@, if_true@) + "} else { "@ + wrap_each("__c.push("@, "); "@, if_false@) + "} "@,
        _ => "__c.push("@ + node_code(n) + "); "@,
    }
}

/// The statements that collect the nodes into `__c`.
pub open spec fn children_items(ns: Seq<RsxNode>) -> Seq<char>
    decreases ns.len(),
{
    if ns.len() == 0 { Seq::empty() } else { children_items(ns.drop_last()) + children_item(ns.last()) }
}

/// The first literal attribute called `name`.
fn find_attr<'a>(attrs: &'a Vec<RsxAttr>, name: &str) -> (r: Option<&'a String>)
    ensures
        match find_literal(attrs@, name@) {
            Some(v) => r matches Some(s) && s@ == v,
            None => r is None,
        },
{
    let mut i: usize = 0;
    proof { assert(attrs@.skip(0) =~= attrs@); }
    while i < attrs.len()
        invariant
            i <= attrs@.len(),
            find_literal(attrs@, name@) == find_literal(attrs@.skip(i as int), name@),
        decreases attrs@.len() - i,
    {
        proof {
            assert(attrs@.skip(i as int)[0] == attrs@[i as int]);
            assert(attrs@.skip(i as int).drop_first() =~= attrs@.skip(i + 1));
        }
        if str_eq(attrs[i].name.as_str(), name) {
            match &attrs[i].value {
                RsxAttrValue::Literal(v) => {
                    return Some(v);
                },
                _ => {},
            }
        }
        i += 1;
    }
    None
}

/// Appends the document-builder call of one top-level node.
fn gen_top_item(n: &RsxNode, out: &mut String)
    ensures
        final(out)@ == old(out)@ + top_item(*n),
{
    match n {
        RsxNode::Element { tag, attrs, children, self_closing } => {
            if !*self_closing && str_eq(tag.as_str(), "Style") {
                if children.len() > 0 {
                    match &children[0] {
                        RsxNode::Expr(e) => {
                            push_str(out, "        .inline_style(");
                            push_str(out, e.as_str());
                            push_str(out, ")\n");
                        },
                        _ => {
                            proof { assert(old(out)@ + Seq::<char>::empty() =~= old(out)@); }
                        },
                    }
                } else {
                    proof { assert(old(out)@ + Seq::<char>::empty() =~= old(out)@); }
                }
            } else if !*self_closing && str_eq(tag.as_str(), "Head") {
                gen_each("        .head_node(\n            ", "\n        )\n", children, out);
            } else if *self_closing && str_eq(tag.as_str(), "Stylesheet") {
                match find_attr(attrs, "href") {
                    Some(v) => {
                        push_str(out, "        .stylesheet(\"");
                        push_str(out, v.as_str());
                        push_str(out, "\")\n");
                    },
                    None => {
                        proof { assert(old(out)@ + Seq::<char>::empty() =~= old(out)@); }
                    },
                }
            } else {
                push_str(out, "        .body_node(\n            ");
                gen_node(n, out);
                push_str(out, "\n        )\n");
            }
        },
        RsxNode::CondAnd { .. } => {
            push_str(out, "        .body_nodes(");
            gen_node(n, out);
            push_str(out, ")\n");
        },
        RsxNode::Ternary { if_true, if_false, .. } => {
            if if_true.len() == 1 && if_false.len() == 1 {
                push_str(out, "        .body_node(\n            ");
                gen_node(n, out);
                push_str(out, "\n        )\n");
            } else {
                push_str(out, "        .body_nodes(");
                gen_node(n, out);
                push_str(out, ")\n");
            }
        },
        RsxNode::Expr(e) => {
            push_str(out, "        .body_nodes((");
            push_str(out, e.as_str());
            push_str(out, ").into_children())\n");
        },
        _ => {
            push_str(out, "        .body_node(\n            ");
            gen_node(n, out);
            push_str(out, "\n        )\n");
        },
    }
    proof { assert(out@ =~= old(out)@ + top_item(*n)); }
}

/// Appends the document-builder calls of the top-level nodes.
fn gen_top_items(ns: &Vec<RsxNode>, out: &mut String)
    ensures
        final(out)@ == old(out)@ + top_items(ns@),
{
    let ghost start = out@;
    let mut i: usize = 0;
    proof { assert(ns@.subrange(0, 0) =~= Seq::<RsxNode>::empty()); assert(start + Seq::<char>::empty() =~= start); }
    while i < ns.len()
        invariant
            i <= ns@.len(),
            out@ == start + top_items(ns@.subrange(0, i as int)),
        decreases ns@.len() - i,
    {
        gen_top_item(&ns[i], out);
        proof {
            let w = ns@.subrange(0, i + 1);
            assert(w.drop_last() =~= ns@.subrange(0, i as int));
            assert(out@ =~= start + top_items(w));
        }
        i += 1;
    }
    proof { assert(ns@.subrange(0, ns@.len() as int) =~= ns@); }
}

/// The view of an optional URL.
pub open spec fn opt_view(o: Option<&str>) -> Option<Seq<char>> {
    match o {
        Some(s) => Some(s@),
        None => None,
    }
}

/// Appends the glue script call, if any.
fn gen_glue(glue_url: Option<&str>, out: &mut String)
    ensures
        final(out)@ == old(out)@ + glue_code(opt_view(glue_url)),
{
    match glue_url {
        Some(url) => {
            push_str(out, "        .script_module(\"");
            push_str(out, url);
            push_str(out, "\")\n");
            proof { assert(out@ =~= old(out)@ + glue_code(opt_view(glue_url))); }
        },
        None => {
            proof { assert(old(out)@ + Seq::<char>::empty() =~= old(out)@); }
        },
    }
}

/// Generate code for a `-> Html` function body.
pub fn generate_html_fn(nodes: &Vec<RsxNode>) -> (r: String)
    ensures
        r@ == html_fn_code(nodes@, None),
{
    generate_html_fn_with_client(nodes, None)
}

/// Generate code for a `-> Html` function body, optionally referencing a client glue script.
pub fn generate_html_fn_with_client(nodes: &Vec<RsxNode>, glue_url: Option<&str>) -> (r: String)
    ensures
        r@ == html_fn_code(nodes@, opt_view(glue_url)),
{
    let mut out = String::new();
    push_str(&mut out, "HtmlDocument::new()\n");
    gen_top_items(nodes, &mut out);
    gen_glue(glue_url, &mut out);
    proof { assert(out@ =~= html_fn_code(nodes@, opt_view(glue_url))); }
    out
}

/// Generate code for a `-> Html` function body with utility CSS injected first.
pub fn generate_html_fn_styled(nodes: &Vec<RsxNode>, css: &str, glue_url: Option<&str>) -> (r: String)
    ensures
        r@ == html_fn_styled_code(nodes@, css@, opt_view(glue_url)),
{
    let mut out = String::new();
    push_str(&mut out, "HtmlDocument::new()\n");
    let ghost o0 = out@;
    if !css.is_empty() {
        push_str(&mut out, "        .inline_style(\"");
        let cs = crate::text::chars_of(css);
        let ghost o1 = out@;
        let mut i: usize = 0;
        proof { assert(o1 + css_escape(cs@.subrange(0, 0)) =~= o1); }
        while i < cs.len()
            invariant
                cs@ == css@,
                i <= cs@.len(),
                out@ == o1 + css_escape(cs@.subrange(0, i as int)),
            decreases cs@.len() - i,
        {
            let ch = cs[i];
            if ch == '"' {
                push_str(&mut out, "\\\"");
            } else if ch == '\\' {
                push_str(&mut out, "\\\\");
            } else {
                out.push(ch);
            }
            proof {
                let w = cs@.subrange(0, i + 1);
                assert(w.drop_last() =~= cs@.subrange(0, i as int));
                assert(w.last() == ch);
                assert(out@ =~= o1 + css_escape(w));
            }
            i += 1;
        }
        proof { assert(cs@.subrange(0, cs@.len() as int) =~= cs@); }
        push_str(&mut out, "\")\n");
    } else {
        proof { assert(o0 + Seq::<char>::empty() =~= o0); }
    }
    gen_top_items(nodes, &mut out);
    gen_glue(glue_url, &mut out);
    proof { assert(out@ =~= html_fn_styled_code(nodes@, css@, opt_view(glue_url))); }
    out
}

/// Appends the statements of a `-> Fragment` body for one node.
fn gen_fragment_item(n: &RsxNode, out: &mut String)
    ensures
        final(out)@ == old(out)@ + fragment_item(*n),
{
    match n {
        RsxNode::Expr(e) => {
            push_str(out, "    __rsx_nodes.extend((");
            push_str(out, e.as_str());
            push_str(out, ").into_children());\n");
        },
        RsxNode::CondAnd { condition, body } => {
            push_str(out, "    if ");
            push_str(out, condition.as_str());
            push_str(out, " {\n");
            gen_each("        __rsx_nodes.push(", ");\n", body, out);
            push_str(out, "    }\n");
        },
        RsxNode::Ternary { condition, if_true, if_false } => {
            if if_true.len() == 1 && if_false.len() == 1 {
                push_str(out, "    __rsx_nodes.push(if ");
                push_str(out, condition.as_str());
                push_str(out, " { ");
                gen_node(&if_true[0], out);
                push_str(out, " } else { ");
                gen_node(&if_false[0], out);
                push_str(out, " });\n");
            } else {
                push_str(out, "    if ");
                push_str(out, condition.as_str());
                push_str(out, " {\n");
                gen_each("        __rsx_nodes.push(", ");\n", if_true, out);
                push_str(out, "    } else {\n");
                gen_each("        __rsx_nodes.push(", ");\n", if_false, out);
                push_str(out, "    }\n");
            }
        },
        _ => {
            push_str(out, "    __rsx_nodes.push(\n        ");
            gen_node(n, out);
            push_str(out, "\n    );\n");
        },
    }
    proof { assert(out@ =~= old(out)@ + fragment_item(*n)); }
}

/// Generate code for a `-> Fragment` function body.
pub fn generate_fragment_fn(nodes: &Vec<RsxNode>) -> (r: String)
    ensures
        r@ == "let mut __rsx_nodes = Vec::new();\n"@ + fragment_items(nodes@) + "    __rsx_nodes"@,
{
    let mut out = String::new();
    push_str(&mut out, "let mut __rsx_nodes = Vec::new();\n");
    let ghost start = out@;
    let mut i: usize = 0;
    proof { assert(nodes@.subrange(0, 0) =~= Seq::<RsxNode>::empty()); assert(start + Seq::<char>::empty() =~= start); }
    while i < nodes.len()
        invariant
            i <= nodes@.len(),
            out@ == start + fragment_items(nodes@.subrange(0, i as int)),
        decreases nodes@.len() - i,
    {
        gen_fragment_item(&nodes[i], &mut out);
        proof {
            let w = nodes@.subrange(0, i + 1);
            assert(w.drop_last() =~= nodes@.subrange(0, i as int));
            assert(out@ =~= start + fragment_items(w));
        }
        i += 1;
    }
    proof { assert(nodes@.subrange(0, nodes@.len() as int) =~= nodes@); }
    push_str(&mut out, "    __rsx_nodes");
    out
}

/// Appends the statements that collect one node into `__c`.
fn gen_children_item(n: &RsxNode, out: &mut String)
    ensures
        final(out)@ == old(out)@ + children_item(*n),
{
    match n {
        RsxNode::Expr(e) => {
            push_str(out, "__c.extend((");
            push_str(out, e.as_str());
            push_str(out, ").into_children()); ");
        },
        RsxNode::CondAnd { condition, body } => {
            push_str(out, "if ");
            push_str(out, condition.as_str());
            push_str(out, " { ");
            gen_each("__c.push(", "); ", body, out);
            push_str(out, "} ");
        },
        RsxNode::Ternary { condition, if_true, if_false } => {
            push_str(out, "if ");
            push_str(out, condition.as_str());
            push_str(out, " { ");
            gen_each("__c.push(", "); ", if_true, out);
            push_str(out, "} else { ");
            gen_each("__c.push(", "); ", if_false, out);
            push_str(out, "} ");
        },
        _ => {
            push_str(out, "__c.push(");
            gen_node(n, out);
            push_str(out, "); ");
        },
    }
    proof { assert(out@ =~= old(out)@ + children_item(*n)); }
}

/// Generate a block expression that builds a `Vec<HtmlNode>` from child nodes.
pub fn generate_children_expr(nodes: &Vec<RsxNode>) -> (r: String)
    ensures
        r@ == "{ let mut __c = Vec::new(); "@ + children_items(nodes@) + "__c }"@,
{
    let mut out = String::new();
    push_str(&mut out, "{ let mut __c = Vec::new(); ");
    let ghost start = out@;
    let mut i: usize = 0;
    proof { assert(nodes@.subrange(0, 0) =~= Seq::<RsxNode>::empty()); assert(start + Seq::<char>::empty() =~= start); }
    while i < nodes.len()
        invariant
            i <= nodes@.len(),
            out@ == start + children_items(nodes@.subrange(0, i as int)),
        decreases nodes@.len() - i,
    {
        gen_children_item(&nodes[i], &mut out);
        proof {
            let w = nodes@.subrange(0, i + 1);
            assert(w.drop_last() =~= nodes@.subrange(0, i as int));
            assert(out@ =~= start + children_items(w));
        }
        i += 1;
    }
    proof { assert(nodes@.subrange(0, nodes@.len() as int) =~= nodes@); }
    push_str(&mut out, "__c }");
    out
}

} // verus!
