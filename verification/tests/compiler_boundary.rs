use volki_web::compiler::scanner::scan_functions;
use volki_web::compiler::boundary::{validate_boundaries, validate_top_level};

#[test]
fn test_client_api_in_html_detected() {
    let source = r##"
pub fn page(_req: &Request) -> Html {
    let el = dom::query("#btn");
}
"##;
    let fns = scan_functions(source);
    let violations = validate_boundaries(&fns, source);
    assert_eq!(violations.len(), 1);
    assert_eq!(violations[0].pattern.as_str(), "dom::query");
    assert!(violations[0].message.as_str().contains("client-only API"));
    assert!(violations[0].message.as_str().contains("Html"));
}

#[test]
fn test_use_state_in_html_detected() {
    let source = r#"
pub fn page(_req: &Request) -> Html {
    let count = use_state(0_i32);
}
"#;
    let fns = scan_functions(source);
    let violations = validate_boundaries(&fns, source);
    assert_eq!(violations.len(), 1);
    assert_eq!(violations[0].pattern.as_str(), "use_state");
    assert!(violations[0].message.as_str().contains("client-only API"));
}

#[test]
fn test_server_api_in_client_detected() {
    let source = r#"
pub fn on_click() -> Client {
    let r = Response::ok();
}
"#;
    let fns = scan_functions(source);
    let violations = validate_boundaries(&fns, source);
    assert_eq!(violations.len(), 1);
    assert_eq!(violations[0].pattern.as_str(), "Response::");
    assert!(violations[0].message.as_str().contains("server-only API"));
    assert!(violations[0].message.as_str().contains("Client"));
}

#[test]
fn test_use_state_in_client_detected() {
    let source = r#"
pub fn on_click() -> Client {
    let count = use_state(0_i32);
}
"#;
    let fns = scan_functions(source);
    let violations = validate_boundaries(&fns, source);
    assert_eq!(violations.len(), 1);
    assert_eq!(violations[0].pattern.as_str(), "use_state");
    assert!(violations[0].message.as_str().contains("Component"));
    assert!(violations[0].message.as_str().contains("not `-> Client`"));
}

#[test]
fn test_valid_html_no_violations() {
    let source = r#"
pub fn page(_req: &Request) -> Html {
    let title = "hello";
    let x = 42;
}
"#;
    let fns = scan_functions(source);
    let violations = validate_boundaries(&fns, source);
    assert_eq!(violations.len(), 0);
}

#[test]
fn test_valid_client_no_violations() {
    let source = r##"
pub fn on_click() -> Client {
    let el = dom::query("#btn");
    let v = state::get_i32("counter", 0);
}
"##;
    let fns = scan_functions(source);
    let violations = validate_boundaries(&fns, source);
    assert_eq!(violations.len(), 0);
}

#[test]
fn test_valid_component_no_violations() {
    let source = r##"
pub fn counter() -> Component {
    let count = use_state(0_i32);
    let el = dom::query("#count");
    el.set_text(state::fmt_i32(count));
}
"##;
    let fns = scan_functions(source);
    let violations = validate_boundaries(&fns, source);
    assert_eq!(violations.len(), 0);
}

#[test]
fn test_pattern_in_string_literal_ignored() {
    let source = r#"
pub fn page(_req: &Request) -> Html {
    let msg = "dom::query is a client API";
}
"#;
    let fns = scan_functions(source);
    let violations = validate_boundaries(&fns, source);
    assert_eq!(violations.len(), 0);
}

#[test]
fn test_pattern_in_comment_ignored() {
    let source = "
pub fn page(_req: &Request) -> Html {\n    // dom::query(\"#btn\");\n    let x = 1;\n}\n";
    let fns = scan_functions(source);
    let violations = validate_boundaries(&fns, source);
    assert_eq!(violations.len(), 0);
}

#[test]
fn test_multiple_violations_collected() {
    let source = r##"
pub fn page(_req: &Request) -> Html {
    let el = dom::query("#btn");
    el.set_text("hi");
    dom::log("debug");
}
"##;
    let fns = scan_functions(source);
    let violations = validate_boundaries(&fns, source);
    assert_eq!(violations.len(), 3);
}

#[test]
fn test_server_api_in_component_detected() {
    let source = r#"
pub fn counter() -> Component {
    let doc = HtmlDocument::new();
}
"#;
    let fns = scan_functions(source);
    let violations = validate_boundaries(&fns, source);
    assert_eq!(violations.len(), 1);
    assert_eq!(violations[0].pattern.as_str(), "HtmlDocument::");
    assert!(violations[0].message.as_str().contains("server-only API"));
    assert!(violations[0].message.as_str().contains("Component"));
}

// ── Top-level validation tests ──────────────────────────────────

#[test]
fn test_top_level_use_state_detected() {
    let source = r#"
let count = use_state(0_i32);

pub fn page(_req: &Request) -> Html {
    let x = 1;
}
"#;
    let fns = scan_functions(source);
    let violations = validate_top_level(&fns, source);
    assert_eq!(violations.len(), 1);
    assert_eq!(violations[0].pattern.as_str(), "use_state");
    assert!(violations[0].message.as_str().contains("cannot be used at the top level"));
}

#[test]
fn test_top_level_state_set_detected() {
    let source = r#"
state::set_i32("counter", 0, 42);

pub fn page(_req: &Request) -> Html {
    let x = 1;
}
"#;
    let fns = scan_functions(source);
    let violations = validate_top_level(&fns, source);
    assert_eq!(violations.len(), 1);
    assert_eq!(violations[0].pattern.as_str(), "state::set_i32");
    assert!(violations[0].message.as_str().contains("cannot be used at the top level"));
}

#[test]
fn test_top_level_dom_query_detected() {
    let source = r##"
let el = dom::query("#btn");

pub fn on_click() -> Client {
    dom::log("ok");
}
"##;
    let fns = scan_functions(source);
    let violations = validate_top_level(&fns, source);
    assert_eq!(violations.len(), 1);
    assert_eq!(violations[0].pattern.as_str(), "dom::query");
}

#[test]
fn test_top_level_between_functions_detected() {
    let source = r##"
pub fn page(_req: &Request) -> Html {
    let x = 1;
}

let el = dom::query("#middle");

pub fn on_click() -> Client {
    dom::log("ok");
}
"##;
    let fns = scan_functions(source);
    let violations = validate_top_level(&fns, source);
    assert_eq!(violations.len(), 1);
    assert_eq!(violations[0].pattern.as_str(), "dom::query");
}

#[test]
fn test_top_level_no_false_positives_inside_functions() {
    let source = r##"
pub fn on_click() -> Client {
    let el = dom::query("#btn");
    state::set_i32("counter", 0, 1);
}

pub fn counter() -> Component {
    let count = use_state(0_i32);
}
"##;
    let fns = scan_functions(source);
    let violations = validate_top_level(&fns, source);
    assert_eq!(violations.len(), 0);
}

#[test]
fn test_top_level_string_literal_ignored() {
    let source = r#"
let msg = "use_state(0_i32) is for components";

pub fn page(_req: &Request) -> Html {
    let x = 1;
}
"#;
    let fns = scan_functions(source);
    let violations = validate_top_level(&fns, source);
    assert_eq!(violations.len(), 0);
}

#[test]
fn test_top_level_comment_ignored() {
    let source = "
// use_state(0_i32);\n/* dom::query(\"#x\"); */\n\npub fn page(_req: &Request) -> Html {\n    let x = 1;\n}\n";
    let fns = scan_functions(source);
    let violations = validate_top_level(&fns, source);
    assert_eq!(violations.len(), 0);
}

#[test]
fn test_top_level_multiple_violations() {
    let source = r##"
let el = dom::query("#a");
let count = use_state(0_i32);
state::set_i32("x", 0, 1);

pub fn page(_req: &Request) -> Html {
    let x = 1;
}
"##;
    let fns = scan_functions(source);
    let violations = validate_top_level(&fns, source);
    assert_eq!(violations.len(), 3);
}

#[test]
fn test_top_level_no_functions_entire_file() {
    let source = r##"
let el = dom::query("#btn");
let count = use_state(0_i32);
"##;
    let fns = scan_functions(source);
    assert!(fns.is_empty());
    let violations = validate_top_level(&fns, source);
    assert_eq!(violations.len(), 2);
    assert_eq!(violations[0].pattern.as_str(), "dom::query");
    assert_eq!(violations[1].pattern.as_str(), "use_state");
}

#[test]
fn test_top_level_help_message() {
    let source = r#"
let count = use_state(0_i32);
"#;
    let fns = scan_functions(source);
    let violations = validate_top_level(&fns, source);
    assert_eq!(violations.len(), 1);
    assert!(violations[0].help.as_str().contains("runtime API"));
    assert!(violations[0].help.as_str().contains("Component"));
}
