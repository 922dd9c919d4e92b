use volki_web::compiler::boundary::BoundaryViolation;
use volki_web::compiler::pipeline::{boundary_error, boundary_error_message, minify_or_keep, server_source};
use volki_web::compiler::scanner::scan_functions;
use volki_web::compiler::use_paths::{module_file, path_base, segment_file, ModuleFile, PathBase, SegmentFile};
use std::path::PathBuf;
use volki_web::compiler::parser::RsxNode;
use volki_web::compiler::pipeline::resolve_components;
use volki_web::compiler::scanner::FnParam;

fn violation(line: usize, col: usize, message: &str, help: &str) -> BoundaryViolation {
    BoundaryViolation {
        line,
        col,
        pattern: String::from("dom::query"),
        fn_type: String::from("Html"),
        fn_name: None,
        message: String::from(message),
        help: String::from(help),
    }
}

#[test]
fn test_boundary_error_message_joins_reports() {
    let vs = vec![violation(3, 5, "first", "h1"), violation(10, 2, "second", "h2")];
    let msg = boundary_error_message(&vs, "src/app.volki");
    assert_eq!(
        msg.as_str(),
        "error: first\n  --> src/app.volki:3:5\n   |\n   = help: h1\n\nerror: second\n  --> src/app.volki:10:2\n   |\n   = help: h2"
    );
    let e = boundary_error(&vs, PathBuf::from("src/app.volki"), "src/app.volki").unwrap();
    assert_eq!((e.line, e.col), (3, 5));
    assert!(boundary_error(&[], PathBuf::from("x"), "x").is_none());
}

#[test]
fn test_server_source_drops_client_and_replaces_return_types() {
    let source = "pub fn page() -> Html {\n    <div></div>\n}\npub fn on_click() -> Client {\n    x();\n}\nfn tail() {}\n";
    let fns = scan_functions(source);
    assert_eq!(fns.len(), 2);
    let bodies = vec![String::from("BODY"), String::new()];
    let out = server_source(source, &fns, &bodies);
    assert_eq!(out.as_str(), "pub fn page() -> HtmlDocument {\n    BODY}\nfn tail() {}\n");
}

#[test]
fn test_minify_or_keep_falls_back() {
    let (kept, err) = minify_or_keep("let s = \"abc");
    assert_eq!(kept.as_str(), "let s = \"abc");
    assert_eq!(err.unwrap().kind, "unterminated string");
    let (small, none) = minify_or_keep("a   b");
    assert_eq!(small.as_str(), "a b");
    assert!(none.is_none());
}

#[test]
fn test_use_path_choices() {
    let segs = vec![String::from("super"), String::from("x")];
    assert_eq!(path_base(&segs), (PathBase::ParentDir, 1));
    assert_eq!(path_base(&[String::from("widgets")]), (PathBase::SrcRoot, 0));
    assert_eq!(segment_file(false, true, true, true, false), Some(SegmentFile::Rs));
    assert_eq!(segment_file(false, false, true, false, true), Some(SegmentFile::DirModVolki));
    assert_eq!(segment_file(false, false, false, true, true), None);
    assert_eq!(module_file(false, false, true), Some(ModuleFile::ModVolki));
    assert_eq!(module_file(false, false, false), None);
}

fn parse_rsx(src: &str) -> Vec<RsxNode> {
    let tokens = volki_web::compiler::tokenizer::tokenize(src, PathBuf::from("t.volki")).unwrap();
    volki_web::compiler::parser::parse(&tokens, PathBuf::from("t.volki")).unwrap()
}

#[test]
fn test_resolve_components_calls_and_mounts() {
    let p = |n: &str| FnParam { name: String::from(n), ty: String::from("T") };
    let comps = vec![(String::from("card"), vec![p("title"), p("n"), p("children")])];
    let rsx = vec![String::from("counter")];
    let nodes = parse_rsx("<div><Card title=\"Hi\" n={x}><p>\"a\"</p></Card><Counter /></div>");
    let out = resolve_components(&nodes, &comps, &rsx);
    assert_eq!(out.len(), 1);
    match &out[0] {
        RsxNode::Element { tag, children, .. } => {
            assert_eq!(tag.as_str(), "div");
            assert_eq!(children.len(), 2);
            assert_eq!(
                children[0],
                RsxNode::Expr(String::from(
                    "card(\"Hi\", x, { let mut __c = Vec::new(); __c.push(p().text(\"a\").into_node()); __c })"
                ))
            );
            assert_eq!(
                children[1],
                RsxNode::Expr(String::from("div().attr(\"data-volki-component\", \"counter\").into_node()"))
            );
        }
        _ => panic!("expected an element"),
    }
}

#[test]
fn test_parse_bodies_parses_html_and_skips_client() {
    let source = r#"
pub fn page() -> Html {
    <div class="a">"hi"</div>
}

pub fn on_click() -> Client {
    dom::log("x");
}
"#;
    let fns = scan_functions(source);
    let bodies = volki_web::compiler::pipeline::parse_bodies(source, &PathBuf::from("page.rs"), &fns).unwrap();
    assert_eq!(bodies.len(), 2);
    match &bodies[0] {
        Some(nodes) => {
            assert_eq!(nodes.len(), 1);
            match &nodes[0] {
                RsxNode::Element { tag, children, .. } => {
                    assert_eq!(tag.as_str(), "div");
                    assert_eq!(children.len(), 1);
                }
                _ => panic!("expected an element"),
            }
        }
        None => panic!("expected a parsed body"),
    }
    assert!(bodies[1].is_none());
}

#[test]
fn test_parse_bodies_reports_first_error() {
    let source = r#"
pub fn page() -> Html {
    <div>
}
"#;
    let fns = scan_functions(source);
    let err = volki_web::compiler::pipeline::parse_bodies(source, &PathBuf::from("bad.rs"), &fns).unwrap_err();
    assert_eq!(err.file, PathBuf::from("bad.rs"));
    assert!(!err.message.is_empty());
}
