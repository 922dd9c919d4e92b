use std::path::PathBuf;
use volki_web::compiler::parser::{RsxAttr, RsxAttrValue, RsxNode};
use volki_web::compiler::scanner::{scan_functions, FnParam};
use volki_web::compiler::semantic::{
    collect_client_symbols, collect_component_tags, is_identifier, local_fragment_components,
    parse_use_statements, validate_component_props, validate_component_resolution, validate_event_bindings,
};

fn el(tag: &str, attrs: Vec<(&str, RsxAttrValue)>, children: Vec<RsxNode>) -> RsxNode {
    RsxNode::Element {
        tag: String::from(tag),
        attrs: attrs
            .into_iter()
            .map(|(n, v)| RsxAttr { name: String::from(n), value: v })
            .collect(),
        children,
        self_closing: false,
    }
}

fn expr(s: &str) -> RsxAttrValue {
    RsxAttrValue::Expr(String::from(s))
}

fn lit(s: &str) -> RsxAttrValue {
    RsxAttrValue::Literal(String::from(s))
}

#[test]
fn identifier_rules() {
    assert!(is_identifier("  on_click "));
    assert!(is_identifier("_x9"));
    assert!(!is_identifier("9x"));
    assert!(!is_identifier("a-b"));
    assert!(!is_identifier("   "));
}

#[test]
fn event_binding_to_client_fn_ok() {
    let source = "fn page() -> Html {\n<button onclick={go}>\"x\"</button>\n}\nfn go() -> Client {}\n";
    let fns = scan_functions(source);
    let syms = collect_client_symbols(&fns);
    assert_eq!(syms.len(), 1);
    assert_eq!(syms[0].0.as_str(), "go");
    assert_eq!(syms[0].1, 0);
    let nodes = vec![el("button", vec![("onclick", expr("go"))], vec![])];
    let r = validate_event_bindings(source, &PathBuf::from("a.volki"), fns[0].body_span, &nodes, &syms);
    assert!(r.is_ok());
}

#[test]
fn event_binding_unknown_handler() {
    let source = "fn page() -> Html {\n<button onclick={nope}>\"x\"</button>\n}\n";
    let fns = scan_functions(source);
    let syms = collect_client_symbols(&fns);
    let nodes = vec![el("button", vec![("onclick", expr("nope"))], vec![])];
    let e = validate_event_bindings(source, &PathBuf::from("a.volki"), fns[0].body_span, &nodes, &syms).unwrap_err();
    assert_eq!(e.message.as_str(), "event handler `nope` not found as a top-level Client function");
    assert_eq!(e.line, 2);
    assert_eq!(e.col, 9);
}

#[test]
fn event_binding_too_many_params() {
    let source = "fn page() -> Html {\n<b onclick={go}/>\n}\nfn go(a: i32, b: i32) -> Client {}\n";
    let fns = scan_functions(source);
    let syms = collect_client_symbols(&fns);
    let nodes = vec![el("b", vec![("onclick", expr("go"))], vec![])];
    let e = validate_event_bindings(source, &PathBuf::from("a.volki"), fns[0].body_span, &nodes, &syms).unwrap_err();
    assert_eq!(e.message.as_str(), "event handler `go` has 2 params; only 0 or 1 are supported");
}

#[test]
fn event_binding_literal_and_expr_rules() {
    let source = "fn page() -> Html {\n<a onclick=\"x\" href={h}/>\n}\n";
    let fns = scan_functions(source);
    let syms = collect_client_symbols(&fns);
    let file = PathBuf::from("a.volki");
    let nodes = vec![el("a", vec![("onclick", lit("__volki.go()"))], vec![])];
    let e = validate_event_bindings(source, &file, fns[0].body_span, &nodes, &syms).unwrap_err();
    assert_eq!(
        e.message.as_str(),
        "legacy __volki inline handlers are removed; use event bindings like onclick={on_click}"
    );
    let nodes = vec![el("a", vec![("onclick", lit("go()"))], vec![])];
    let e = validate_event_bindings(source, &file, fns[0].body_span, &nodes, &syms).unwrap_err();
    assert_eq!(e.message.as_str(), "event attributes must use expression syntax like onclick={on_click}");
    let nodes = vec![el("a", vec![("href", expr("h"))], vec![])];
    let e = validate_event_bindings(source, &file, fns[0].body_span, &nodes, &syms).unwrap_err();
    assert_eq!(
        e.message.as_str(),
        "only event attributes support expression values; use a quoted string for non-event attrs"
    );
    let nodes = vec![el("Card", vec![("title", expr("t"))], vec![])];
    assert!(validate_event_bindings(source, &file, fns[0].body_span, &nodes, &syms).is_ok());
}

#[test]
fn component_props_checked() {
    let source = "fn page() -> Html {\n<Card title=\"a\" extra=\"b\"/>\n}\n";
    let fns = scan_functions(source);
    let file = PathBuf::from("a.volki");
    let map = vec![(
        String::from("card"),
        vec![FnParam { name: String::from("title"), ty: String::from("&str") }],
    )];
    let nodes = vec![el("Card", vec![("title", lit("a")), ("extra", lit("b"))], vec![])];
    let e = validate_component_props(source, &file, fns[0].body_span, &nodes, &map).unwrap_err();
    assert_eq!(e.message.as_str(), "unknown prop `extra` on component `Card`");
    let nodes = vec![el("Card", vec![], vec![])];
    let e = validate_component_props(source, &file, fns[0].body_span, &nodes, &map).unwrap_err();
    assert_eq!(e.message.as_str(), "missing required prop `title` on component `Card`");
    assert_eq!(e.line, 2);
    assert_eq!(e.col, 1);
    let nodes = vec![el("Card", vec![("title", lit("a"))], vec![RsxNode::Text(String::from("x"))])];
    let e = validate_component_props(source, &file, fns[0].body_span, &nodes, &map).unwrap_err();
    assert_eq!(
        e.message.as_str(),
        "component `Card` does not accept children; add a `children: Vec<HtmlNode>` parameter"
    );
    let nodes = vec![el("Card", vec![("title", lit("a"))], vec![])];
    assert!(validate_component_props(source, &file, fns[0].body_span, &nodes, &map).is_ok());
}

#[test]
fn component_resolution_errors() {
    let source = "fn page() -> Html {\n<Widget/>\n}\nfn widget() -> Client {}\nfn side() -> Fragment {}\n";
    let fns = scan_functions(source);
    let file = PathBuf::from("a.volki");
    let bodies = vec![Some(vec![el("Widget", vec![], vec![])]), None, None];
    let e = validate_component_resolution(source, &file, &fns, &bodies, &[], &[], &[]).unwrap_err();
    assert_eq!(e.message.as_str(), "component `Widget` must return Fragment (found Client)");
    let bodies = vec![Some(vec![el("Missing", vec![], vec![])]), None, None];
    let e = validate_component_resolution(source, &file, &fns, &bodies, &[], &[], &[]).unwrap_err();
    assert_eq!(e.message.as_str(), "unresolved component `Missing`; expected a function returning Fragment");
    let comps = local_fragment_components(&fns);
    assert_eq!(comps.len(), 1);
    assert_eq!(comps[0].0.as_str(), "side");
    let bodies = vec![Some(vec![el("Side", vec![], vec![])]), None, None];
    assert!(validate_component_resolution(source, &file, &fns, &bodies, &comps, &[], &[]).is_ok());
}

#[test]
fn component_tags_depth_first() {
    let nodes = vec![
        el("div", vec![], vec![el("Card", vec![], vec![el("Badge", vec![], vec![])])]),
        el("Style", vec![], vec![]),
        el("Footer", vec![], vec![]),
    ];
    let tags = collect_component_tags(&nodes);
    let names: Vec<&str> = tags.iter().map(|s| s.as_str()).collect();
    assert_eq!(names, vec!["Card", "Badge", "Footer"]);
}

#[test]
fn use_statements_parsed() {
    let src = "use crate::ui::{Card, Badge, self};\nuse super::nav::Nav;\nuse a::*;\nuse lone;\nlet x = 1;";
    let uses = parse_use_statements(src);
    assert_eq!(uses.len(), 2);
    let segs: Vec<&str> = uses[0].module_segments.iter().map(|s| s.as_str()).collect();
    assert_eq!(segs, vec!["crate", "ui"]);
    let syms: Vec<&str> = uses[0].symbols.iter().map(|s| s.as_str()).collect();
    assert_eq!(syms, vec!["Card", "Badge"]);
    let segs: Vec<&str> = uses[1].module_segments.iter().map(|s| s.as_str()).collect();
    assert_eq!(segs, vec!["super", "nav"]);
    assert_eq!(uses[1].symbols[0].as_str(), "Nav");
}

#[test]
fn use_statement_without_close_brace_skipped() {
    assert_eq!(parse_use_statements("use a::{B").len(), 0);
    assert_eq!(parse_use_statements("use a::{}").len(), 0);
}
