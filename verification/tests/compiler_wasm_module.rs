use volki_web::compiler::parser::RsxNode;
use volki_web::compiler::scanner::{scan_functions, RsxFunction, RsxReturnType};
use volki_web::compiler::wasm_codegen::{generate_wasm_module, ParamAbi};

fn empty_components() -> Vec<&'static RsxFunction> {
    Vec::new()
}

fn clients_of(fns: &[RsxFunction]) -> Vec<&RsxFunction> {
    fns.iter().filter(|f| f.return_type == RsxReturnType::Client).collect()
}

fn components_of(fns: &[RsxFunction]) -> Vec<&RsxFunction> {
    fns.iter().filter(|f| f.return_type == RsxReturnType::Component).collect()
}

#[test]
fn test_generate_simple_client_fn() {
    let source = r#"
pub fn on_click(target: &str) -> Client {
    let el = dom::query(target);
    el.set_text("Clicked!");
}
"#;
    let fns = scan_functions(source);
    let client_fns = clients_of(&fns);
    let abis = vec![vec![ParamAbi::StringPair]];
    let wasm = generate_wasm_module(&client_fns, &empty_components(), source, &Vec::new(), &abis);

    assert!(wasm.contains("#![no_std]"));
    assert!(wasm.contains("fn __volki_alloc("));
    assert!(wasm.contains("fn __volki_dom_query("));
    assert!(wasm.contains("fn __volki_dom_set_text("));
    assert!(wasm.contains("pub extern \"C\" fn on_click(target_ptr: i32, target_len: i32)"));
    assert!(wasm.contains("core::str::from_utf8_unchecked"));
}

#[test]
fn test_generate_no_params() {
    let source = r#"
pub fn init() -> Client {
    dom::log("initialized");
}
"#;
    let fns = scan_functions(source);
    let client_fns = clients_of(&fns);
    let abis = vec![Vec::new()];
    let wasm = generate_wasm_module(&client_fns, &empty_components(), source, &Vec::new(), &abis);
    assert!(wasm.contains("pub extern \"C\" fn init()"));
    assert!(wasm.contains("fn __volki_console_log("));
}

#[test]
fn test_generate_mixed_params() {
    let source = r##"
pub fn update(id: i32, text: &str) -> Client {
    let el = dom::query("#item");
    el.set_text(text);
}
"##;
    let fns = scan_functions(source);
    let client_fns = clients_of(&fns);
    let abis = vec![vec![ParamAbi::Direct(String::from("i32")), ParamAbi::StringPair]];
    let wasm = generate_wasm_module(&client_fns, &empty_components(), source, &Vec::new(), &abis);
    assert!(wasm.contains("pub extern \"C\" fn update(id: i32, text_ptr: i32, text_len: i32)"));
}

#[test]
fn test_only_needed_imports() {
    let source = r#"
pub fn log_it() -> Client {
    dom::log("hello");
}
"#;
    let fns = scan_functions(source);
    let client_fns = clients_of(&fns);
    let abis = vec![Vec::new()];
    let wasm = generate_wasm_module(&client_fns, &empty_components(), source, &Vec::new(), &abis);
    assert!(wasm.contains("fn __volki_console_log("));
    assert!(wasm.contains("fn __volki_console_log_i32("));
    assert!(!wasm.contains("fn __volki_dom_query("));
    assert!(!wasm.contains("fn __volki_dom_set_text("));
}

#[test]
fn test_user_extern_hoisting() {
    let source = r#"
pub fn custom(msg: &str) -> Client {
    extern "C" {
        fn alert(s_ptr: i32, s_len: i32);
    }
    unsafe { alert(msg.as_ptr() as i32, msg.len() as i32); }
}
"#;
    let fns = scan_functions(source);
    let client_fns = clients_of(&fns);
    let abis = vec![vec![ParamAbi::StringPair]];
    let wasm = generate_wasm_module(&client_fns, &empty_components(), source, &Vec::new(), &abis);
    assert!(wasm.contains("fn alert(s_ptr: i32, s_len: i32);"));
}

#[test]
fn test_generate_component_fn() {
    let source = r##"
pub fn counter() -> Component {
    let count = use_state(0_i32);
    let el = dom::query("#count");
    el.set_text(state::fmt_i32(count));
}
"##;
    let fns = scan_functions(source);
    let component_fns = components_of(&fns);
    let component_rsx: Vec<Option<Vec<RsxNode>>> = component_fns.iter().map(|_| None).collect();
    let no_clients: Vec<&RsxFunction> = Vec::new();
    let no_abis: Vec<Vec<ParamAbi>> = Vec::new();
    let wasm = generate_wasm_module(&no_clients, &component_fns, source, &component_rsx, &no_abis);

    assert!(wasm.contains("fn __volki_component_begin(id: i32);"));
    assert!(wasm.contains("fn __volki_component_end();"));
    assert!(wasm.contains("fn __volki_state_init_i32(slot: i32, initial: i32) -> i32;"));
    assert!(wasm.contains("fn __volki_state_fmt_i32(value: i32, buf_ptr: i32, buf_len: i32) -> i32;"));
    assert!(wasm.contains("pub extern \"C\" fn __volki_component_counter()"));
    assert!(wasm.contains("__volki_component_begin(0)"));
    assert!(wasm.contains("__volki_component_end()"));
    assert!(wasm.contains("__volki_state_init_i32(0, 0)"));
}

#[test]
fn test_generate_component_with_if_else() {
    let source = r##"
pub fn delete_dialog() -> Component {
    let visible = use_state(0_i32);
    let overlay = dom::query("#delete-dialog");
    if visible == 1 {
        overlay.add_class("visible");
    } else {
        overlay.remove_class("visible");
    }
}
"##;
    let fns = scan_functions(source);
    let component_fns = components_of(&fns);
    let component_rsx: Vec<Option<Vec<RsxNode>>> = component_fns.iter().map(|_| None).collect();
    let no_clients: Vec<&RsxFunction> = Vec::new();
    let no_abis: Vec<Vec<ParamAbi>> = Vec::new();
    let wasm = generate_wasm_module(&no_clients, &component_fns, source, &component_rsx, &no_abis);

    assert!(wasm.contains("if visible == 1 {"));
    assert!(wasm.contains("} else {"));
    assert!(wasm.contains("__volki_state_init_i32(0, 0)"));
    assert!(wasm.contains("__volki_dom_add_class("));
    assert!(wasm.contains("__volki_dom_remove_class("));
}

#[test]
fn module_layout_and_state_helpers() {
    let source = "pub fn counter() -> Component {\n    let (count, set_count) = use_state(0_i32);\n}\npub fn bump() -> Client {\n    set_count(get_count() + 1);\n}\n";
    let fns = scan_functions(source);
    let component_fns = components_of(&fns);
    let client_fns = clients_of(&fns);
    let component_rsx: Vec<Option<Vec<RsxNode>>> = vec![None];
    let abis = vec![Vec::new()];
    let wasm = generate_wasm_module(&client_fns, &component_fns, source, &component_rsx, &abis);
    let imports = "unsafe extern \"C\" {\n    fn __volki_component_begin(id: i32);\n    fn __volki_component_end();\n    \
        fn __volki_state_init_i32(slot: i32, initial: i32) -> i32;\n    \
        fn __volki_xstate_get_i32(comp_id: i32, slot: i32) -> i32;\n    \
        fn __volki_xstate_set_i32(comp_id: i32, slot: i32, value: i32);\n}\n\n";
    assert!(wasm.contains(imports));
    let helpers = "fn get_count() -> i32 {\n    unsafe { __volki_xstate_get_i32(0, 0) }\n}\n\n\
        fn set_count(value: i32) {\n    unsafe { __volki_xstate_set_i32(0, 0, value); }\n}\n\n";
    assert!(wasm.contains(helpers));
    let comp = wasm.find("pub extern \"C\" fn __volki_component_counter()").unwrap();
    let client = wasm.find("pub extern \"C\" fn bump()").unwrap();
    let helper = wasm.find("fn get_count()").unwrap();
    assert!(helper < comp && comp < client);
    assert!(wasm.contains("        set_count(get_count() + 1);\n"));
    assert!(!wasm.contains("__volki_console_log"));
}

#[test]
fn test_cross_function_state_access() {
    let source = r##"
pub fn counter() -> Component {
    let count = use_state(0_i32);
    let el = dom::query("#count");
    el.set_text(state::fmt_i32(count));
}

pub fn on_increment() -> Client {
    let count = state::get_i32("counter", 0);
    state::set_i32("counter", 0, count + 1);
}
"##;
    let fns = scan_functions(source);
    let client_fns = clients_of(&fns);
    let component_fns = components_of(&fns);
    let component_rsx: Vec<Option<Vec<RsxNode>>> = component_fns.iter().map(|_| None).collect();
    let abis = vec![Vec::new()];
    let wasm = generate_wasm_module(&client_fns, &component_fns, source, &component_rsx, &abis);

    // Cross-function state access externs
    assert!(wasm.contains("fn __volki_xstate_get_i32("));
    assert!(wasm.contains("fn __volki_xstate_set_i32("));
    // Resolved component ID 0
    assert!(wasm.contains("__volki_xstate_get_i32(0, 0)"));
    assert!(wasm.contains("__volki_xstate_set_i32(0, 0, count + 1)"));
}
