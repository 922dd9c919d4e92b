use volki_web::compiler::scanner::{parse_params, scan_functions, RsxFunction, RsxReturnType};
use volki_web::compiler::wasm_codegen::{
    collect_state_helper_bindings, count_user_refs, extract_user_externs, generate_component_fn,
    parse_use_state_tuple_decl, StateHelperKind,
};
use volki_web::compiler::wasm_rsx_codegen::WasmRsxOutput;

fn rsx_output(mount: &str, update: &str) -> WasmRsxOutput {
    WasmRsxOutput {
        mount_code: String::from(mount),
        update_code: String::from(update),
        ref_slots_used: 0,
        needs_create: false,
        needs_create_text: false,
        needs_append: false,
        needs_add_class: false,
        needs_set_attr: false,
        needs_set_text: false,
        needs_mount_point: false,
        needs_is_mounted: true,
        needs_ref_get_i32: false,
        needs_ref_set_i32: false,
        needs_fmt_i32: false,
        needs_fmt_f32: false,
    }
}

#[test]
fn tuple_declarations_and_their_type() {
    let (s, set, k) = parse_use_state_tuple_decl("let (count, set_count) = use_state(0_i32);").unwrap();
    assert_eq!((s.as_str(), set.as_str(), k), ("count", "set_count", StateHelperKind::I32));
    let (_, _, k) = parse_use_state_tuple_decl("let (t , set_t) = use_state(0.5_f32);").unwrap();
    assert_eq!(k, StateHelperKind::F32);
    assert!(parse_use_state_tuple_decl("let count = use_state(0_i32);").is_none());
    assert!(parse_use_state_tuple_decl("let (count) = use_state(0_i32);").is_none());
}

#[test]
fn state_helpers_follow_state_slots() {
    let source = "pub fn counter() -> Component {\n    let (count, set_count) = use_state(0_i32);\n    let x = use_state(1);\n    let (t, set_t) = use_state(0.5_f32);\n}\n";
    let fns = scan_functions(source);
    let comps: Vec<&RsxFunction> = fns.iter().filter(|f| f.return_type == RsxReturnType::Component).collect();
    let ids = vec![(String::from("counter"), 4)];
    let hs = collect_state_helper_bindings(&comps, source, &ids);
    assert_eq!(hs.len(), 2);
    assert_eq!(hs[0].getter, "get_count");
    assert_eq!(hs[0].setter, "set_count");
    assert_eq!((hs[0].comp_id, hs[0].slot, hs[0].kind), (4, 0, StateHelperKind::I32));
    assert_eq!(hs[1].getter, "get_t");
    assert_eq!((hs[1].comp_id, hs[1].slot, hs[1].kind), (4, 2, StateHelperKind::F32));
}

#[test]
fn user_refs_are_counted_in_the_logic_section() {
    let source = "pub fn c() -> Component {\n    let r = use_ref(0_i32);\n    let e = use_ref_el(\"#a\");\n    return (\n        <div></div>\n    )\n}\n";
    let fns = scan_functions(source);
    assert_eq!(count_user_refs(&fns[0], source), 2);
    let plain = "pub fn d() -> Component {\n    let r = use_ref(1);\n}\n";
    let fns = scan_functions(plain);
    assert_eq!(count_user_refs(&fns[0], plain), 1);
}

#[test]
fn extern_blocks_give_their_declarations() {
    let mut externs = vec![String::from("fn z();")];
    extract_user_externs("extern \"C\" {\n fn a(x: i32);\n fn b();\n}\nlet x = 1;\nextern \"C\" { fn c(); }", &mut externs);
    assert_eq!(externs, vec!["fn z();", "fn a(x: i32);", "fn b();", "fn c();"]);
    let mut none: Vec<String> = Vec::new();
    extract_user_externs("extern \"C\" { fn open(", &mut none);
    assert!(none.is_empty());
}

#[test]
fn component_fn_without_rsx() {
    let source = "pub fn counter() -> Component {\n    let count = use_state(0_i32);\n    let el = dom::query(\"#count\");\n}\n";
    let fns = scan_functions(source);
    let mut out = String::from("// head\n");
    generate_component_fn(&fns[0], source, 0, None, &mut out);
    assert_eq!(
        out,
        "// head\n#[unsafe(no_mangle)]\npub extern \"C\" fn __volki_component_counter() {\n    unsafe {\n        \
         __volki_component_begin(0);\n        let count = __volki_state_init_i32(0, 0);\n        let __q = \"#count\";\n        \
         let el = __volki_dom_query(__q.as_ptr() as i32, __q.len() as i32);\n        __volki_component_end();\n    }\n}\n\n"
    );
}

#[test]
fn component_fn_with_rsx_phases() {
    let source = "pub fn card() -> Component {\n    let n = use_state(1);\n    return (\n        <p>\"x\"</p>\n    )\n}\n";
    let fns = scan_functions(source);
    let mut out = String::new();
    generate_component_fn(&fns[0], source, 1, Some(&rsx_output("a();\nb();", "")), &mut out);
    assert_eq!(
        out,
        "#[unsafe(no_mangle)]\npub extern \"C\" fn __volki_component_card() {\n    unsafe {\n        __volki_component_begin(1);\n        \
         let n = __volki_state_init_i32(0, 1);\n        if __volki_component_is_mounted(1) == 0 {\n            a();\n            b();\n        \
         }\n        __volki_component_end();\n    }\n}\n\n"
    );
    let mut out2 = String::new();
    generate_component_fn(&fns[0], source, 1, Some(&rsx_output("a();", "u();")), &mut out2);
    assert!(out2.contains("            a();\n        }\n        u();\n        __volki_component_end();"));
}

#[test]
fn params_are_trimmed_pieces_with_a_colon() {
    let ps = parse_params(" target: &str , count:i32, bad, : x, y: ");
    assert_eq!(ps.len(), 2);
    assert_eq!((ps[0].name.as_str(), ps[0].ty.as_str()), ("target", "&str"));
    assert_eq!((ps[1].name.as_str(), ps[1].ty.as_str()), ("count", "i32"));
    assert!(parse_params("   ").is_empty());
}
