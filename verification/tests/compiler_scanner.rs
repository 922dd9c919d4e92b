use volki_web::compiler::scanner::{scan_functions, split_component_body, RsxReturnType};

#[test]
fn test_scan_html_function() {
    let source = r#"
pub fn page(_req: &Request) -> Html {
    <div class="main">"hello"</div>
}
"#;
    let fns = scan_functions(source);
    assert_eq!(fns.len(), 1);
    assert_eq!(fns[0].return_type, RsxReturnType::Html);
    let rt = &source[fns[0].return_type_span.0..fns[0].return_type_span.1];
    assert_eq!(rt, "Html");
    assert_eq!(fns[0].name.as_ref().unwrap().as_str(), "page");
    assert!(fns[0].params.is_empty());
}

#[test]
fn test_scan_fragment_function() {
    let source = r#"
fn sidebar() -> Fragment {
    <div>"sidebar"</div>
}
"#;
    let fns = scan_functions(source);
    assert_eq!(fns.len(), 1);
    assert_eq!(fns[0].return_type, RsxReturnType::Fragment);
    let rt = &source[fns[0].return_type_span.0..fns[0].return_type_span.1];
    assert_eq!(rt, "Fragment");
    assert_eq!(fns[0].name.as_ref().unwrap().as_str(), "sidebar");
}

#[test]
fn test_scan_client_function() {
    let source = r#"
pub fn on_click(target: &str) -> Client {
    let el = dom::query(target);
    el.set_text("Clicked!");
}
"#;
    let fns = scan_functions(source);
    assert_eq!(fns.len(), 1);
    assert_eq!(fns[0].return_type, RsxReturnType::Client);
    let rt = &source[fns[0].return_type_span.0..fns[0].return_type_span.1];
    assert_eq!(rt, "Client");
    assert_eq!(fns[0].name.as_ref().unwrap().as_str(), "on_click");
    assert_eq!(fns[0].params.len(), 1);
    assert_eq!(fns[0].params[0].name.as_str(), "target");
    assert_eq!(fns[0].params[0].ty.as_str(), "&str");
}

#[test]
fn test_scan_client_multiple_params() {
    let source = r#"
pub fn update_field(id: i32, value: &str, flag: bool) -> Client {
    dom::log("updating");
}
"#;
    let fns = scan_functions(source);
    assert_eq!(fns.len(), 1);
    assert_eq!(fns[0].return_type, RsxReturnType::Client);
    assert_eq!(fns[0].name.as_ref().unwrap().as_str(), "update_field");
    assert_eq!(fns[0].params.len(), 3);
    assert_eq!(fns[0].params[0].name.as_str(), "id");
    assert_eq!(fns[0].params[0].ty.as_str(), "i32");
    assert_eq!(fns[0].params[1].name.as_str(), "value");
    assert_eq!(fns[0].params[1].ty.as_str(), "&str");
    assert_eq!(fns[0].params[2].name.as_str(), "flag");
    assert_eq!(fns[0].params[2].ty.as_str(), "bool");
}

#[test]
fn test_scan_client_no_params() {
    let source = r#"
pub fn init() -> Client {
    dom::log("initialized");
}
"#;
    let fns = scan_functions(source);
    assert_eq!(fns.len(), 1);
    assert_eq!(fns[0].return_type, RsxReturnType::Client);
    assert_eq!(fns[0].name.as_ref().unwrap().as_str(), "init");
    assert!(fns[0].params.is_empty());
}

#[test]
fn test_scan_mixed_functions() {
    let source = r#"
pub fn page(_req: &Request) -> Html {
    <button onclick="__volki.on_click('greeting')">"Click me"</button>
    <p id="greeting">"Hello"</p>
}

pub fn on_click(target: &str) -> Client {
    let el = dom::query(target);
    el.set_text("Clicked!");
}

fn sidebar() -> Fragment {
    <div>"side"</div>
}
"#;
    let fns = scan_functions(source);
    assert_eq!(fns.len(), 3);
    assert_eq!(fns[0].return_type, RsxReturnType::Html);
    assert_eq!(fns[0].name.as_ref().unwrap().as_str(), "page");
    assert_eq!(fns[1].return_type, RsxReturnType::Client);
    assert_eq!(fns[1].name.as_ref().unwrap().as_str(), "on_click");
    assert_eq!(fns[2].return_type, RsxReturnType::Fragment);
    assert_eq!(fns[2].name.as_ref().unwrap().as_str(), "sidebar");
}

#[test]
fn test_scan_ignores_regular_functions() {
    let source = r#"
pub fn metadata(_req: &Request) -> Metadata {
    Metadata::new().title("test")
}

pub fn handler(_req: &Request) -> Response {
    Response::ok()
}

pub fn get_name() -> String {
    String::from("hello")
}
"#;
    let fns = scan_functions(source);
    assert_eq!(fns.len(), 0);
}

#[test]
fn test_scan_body_span() {
    let source = "fn page() -> Html {\n    <div>\"hi\"</div>\n}";
    let fns = scan_functions(source);
    assert_eq!(fns.len(), 1);
    let body = &source[fns[0].body_span.0..fns[0].body_span.1];
    assert!(body.contains("<div>"));
    assert!(body.contains("\"hi\""));
    // Body should NOT include the outer braces
    assert!(!body.starts_with("{"));
    assert!(!body.ends_with("}"));
}

#[test]
fn test_scan_multiple_functions() {
    let source = r#"
fn page() -> Html {
    <div>"hello"</div>
}

fn sidebar() -> Fragment {
    <span>"side"</span>
}

fn handler() -> Response {
    Response::ok()
}
"#;
    let fns = scan_functions(source);
    assert_eq!(fns.len(), 2);
    assert_eq!(fns[0].return_type, RsxReturnType::Html);
    assert_eq!(fns[1].return_type, RsxReturnType::Fragment);
}

#[test]
fn test_scan_ignores_html_document() {
    let source = r#"
fn page() -> HtmlDocument {
    HtmlDocument::new()
}
"#;
    let fns = scan_functions(source);
    assert_eq!(fns.len(), 0);
}

#[test]
fn test_scan_client_body_is_raw_rust() {
    let source = r#"
pub fn toggle(el_id: &str) -> Client {
    let el = dom::query(el_id);
    el.add_class("active");
    dom::log("toggled");
}
"#;
    let fns = scan_functions(source);
    assert_eq!(fns.len(), 1);
    let body = &source[fns[0].body_span.0..fns[0].body_span.1];
    assert!(body.contains("dom::query"));
    assert!(body.contains("el.add_class"));
    assert!(body.contains("dom::log"));
}

#[test]
fn test_scan_component_function() {
    let source = r#"
pub fn counter() -> Component {
    let count = use_state(0_i32);
}
"#;
    let fns = scan_functions(source);
    assert_eq!(fns.len(), 1);
    assert_eq!(fns[0].return_type, RsxReturnType::Component);
    let rt = &source[fns[0].return_type_span.0..fns[0].return_type_span.1];
    assert_eq!(rt, "Component");
    assert_eq!(fns[0].name.as_ref().unwrap().as_str(), "counter");
    assert!(fns[0].params.is_empty());
}

#[test]
fn test_scan_mixed_with_component() {
    let source = r##"
pub fn page(_req: &Request) -> Html {
    <p id="count">"0"</p>
}

pub fn counter() -> Component {
    let count = use_state(0_i32);
    let el = dom::query("#count");
}

pub fn on_increment() -> Client {
    let count = state::get_i32("counter", 0);
}
"##;
    let fns = scan_functions(source);
    assert_eq!(fns.len(), 3);
    assert_eq!(fns[0].return_type, RsxReturnType::Html);
    assert_eq!(fns[1].return_type, RsxReturnType::Component);
    assert_eq!(fns[1].name.as_ref().unwrap().as_str(), "counter");
    assert_eq!(fns[2].return_type, RsxReturnType::Client);
    assert_eq!(fns[2].name.as_ref().unwrap().as_str(), "on_increment");
}

#[test]
fn test_scan_fragment_function_with_params() {
    let source = r#"
fn counter_section(show_help: bool, dark: bool) -> Fragment {
    <div>"counter"</div>
}
"#;
    let fns = scan_functions(source);
    assert_eq!(fns.len(), 1);
    assert_eq!(fns[0].return_type, RsxReturnType::Fragment);
    assert_eq!(fns[0].name.as_ref().unwrap().as_str(), "counter_section");
    assert_eq!(fns[0].params.len(), 2);
    assert_eq!(fns[0].params[0].name.as_str(), "show_help");
    assert_eq!(fns[0].params[0].ty.as_str(), "bool");
    assert_eq!(fns[0].params[1].name.as_str(), "dark");
    assert_eq!(fns[0].params[1].ty.as_str(), "bool");
}

#[test]
fn test_scan_ignores_component_builder() {
    let source = r#"
fn build() -> ComponentBuilder {
    ComponentBuilder::new()
}
"#;
    let fns = scan_functions(source);
    assert_eq!(fns.len(), 0);
}

// ── split_component_body tests ──

#[test]
fn test_split_component_body_with_return_rsx() {
    let source = r#"
pub fn counter() -> Component {
    let (count, set_count) = use_state(0_i32);
    let _ = set_count;

    return (
        <div class="counter">
            <span>"hello"</span>
        </div>
    )
}
"#;
    let fns = scan_functions(source);
    assert_eq!(fns.len(), 1);
    let split = split_component_body(source, fns[0].body_span);
    assert!(split.is_some());
    let split = split.unwrap();

    let logic = &source[split.logic_span.0..split.logic_span.1];
    assert!(logic.contains("use_state(0_i32)"));
    assert!(logic.contains("let _ = set_count"));
    assert!(!logic.contains("<div"));

    let rsx = &source[split.rsx_span.0..split.rsx_span.1];
    assert!(rsx.contains("<div"));
    assert!(rsx.contains("<span>"));
    assert!(!rsx.contains("use_state"));
}

#[test]
fn test_split_component_body_imperative_no_return() {
    let source = r##"
pub fn counter() -> Component {
    let count = use_state(0_i32);
    let el = dom::query("#count");
    el.set_text(state::fmt_i32(count));
}
"##;
    let fns = scan_functions(source);
    assert_eq!(fns.len(), 1);
    let split = split_component_body(source, fns[0].body_span);
    assert!(split.is_none());
}

#[test]
fn test_split_component_body_return_in_string_ignored() {
    let source = r##"
pub fn counter() -> Component {
    let msg = "return (this should not match)";
    let el = dom::query("#count");
}
"##;
    let fns = scan_functions(source);
    assert_eq!(fns.len(), 1);
    let split = split_component_body(source, fns[0].body_span);
    assert!(split.is_none());
}

#[test]
fn test_split_component_body_return_in_nested_block_ignored() {
    let source = r#"
pub fn counter() -> Component {
    let count = use_state(0_i32);
    if count > 0 {
        return (
            <div>"should not match"</div>
        )
    }
}
"#;
    let fns = scan_functions(source);
    assert_eq!(fns.len(), 1);
    let split = split_component_body(source, fns[0].body_span);
    // return inside a nested block (brace_depth > 0) should not match
    assert!(split.is_none());
}

#[test]
fn test_split_component_body_empty_logic() {
    let source = r#"
pub fn greeting() -> Component {
    return (
        <div>"hello"</div>
    )
}
"#;
    let fns = scan_functions(source);
    assert_eq!(fns.len(), 1);
    let split = split_component_body(source, fns[0].body_span).unwrap();

    let logic = &source[split.logic_span.0..split.logic_span.1];
    assert!(logic.trim().is_empty() || logic.trim() == "\n");

    let rsx = &source[split.rsx_span.0..split.rsx_span.1];
    assert!(rsx.contains("<div>"));
}
