use volki_web::compiler::parser::{RsxAttr, RsxAttrValue, RsxNode};
use volki_web::compiler::wasm_rsx_codegen::generate_component_rsx;

fn s(v: &str) -> String { String::from(v) }

#[test]
fn test_rsx_static_element() {
    let nodes = vec![RsxNode::Element {
        tag: s("div"),
        attrs: vec![RsxAttr { name: s("class"), value: RsxAttrValue::Literal(s("counter")) }],
        children: vec![RsxNode::Text(s("hello"))],
        self_closing: false,
    }];
    let output = generate_component_rsx(&nodes, 0, 0);

    assert!(output.mount_code.contains("__volki_dom_create(\"div\""));
    assert!(output.mount_code.contains("__volki_dom_add_class("));
    assert!(output.mount_code.contains("\"counter\""));
    assert!(output.mount_code.contains("__volki_dom_create_text(\"hello\""));
    assert!(output.mount_code.contains("__volki_dom_append("));
    assert!(output.update_code.is_empty());
    assert_eq!(output.ref_slots_used, 0);
    assert!(output.needs_create);
    assert!(output.needs_create_text);
    assert!(output.needs_append);
    assert!(output.needs_add_class);
}

#[test]
fn test_rsx_dynamic_expression() {
    let nodes = vec![RsxNode::Element {
        tag: s("span"),
        attrs: Vec::new(),
        children: vec![RsxNode::Expr(s("state::fmt_i32(count)"))],
        self_closing: false,
    }];
    let output = generate_component_rsx(&nodes, 0, 0);

    // Mount should create empty text placeholder and store ref
    assert!(output.mount_code.contains("__volki_dom_create_text(\"\".as_ptr()"));
    assert!(output.mount_code.contains("__volki_ref_set_i32(0,"));

    // Update should get ref, alloc, fmt, set_text
    assert!(output.update_code.contains("__volki_ref_get_i32(0)"));
    assert!(output.update_code.contains("__volki_alloc(20)"));
    assert!(output.update_code.contains("__volki_state_fmt_i32(count,"));
    assert!(output.update_code.contains("__volki_dom_set_text("));

    assert_eq!(output.ref_slots_used, 1);
    assert!(output.needs_fmt_i32);
    assert!(output.needs_set_text);
}

#[test]
fn test_rsx_event_attr() {
    let nodes = vec![RsxNode::Element {
        tag: s("button"),
        attrs: vec![RsxAttr { name: s("onclick"), value: RsxAttrValue::Expr(s("on_click")) }],
        children: vec![RsxNode::Text(s("+"))],
        self_closing: false,
    }];
    let output = generate_component_rsx(&nodes, 0, 0);

    assert!(output.mount_code.contains("__volki_dom_set_attr("));
    assert!(output.mount_code.contains("data-volki-onclick"));
    assert!(output.mount_code.contains("on_click"));
}

#[test]
fn test_rsx_ref_slot_offset() {
    let nodes = vec![RsxNode::Element {
        tag: s("span"),
        attrs: Vec::new(),
        children: vec![RsxNode::Expr(s("state::fmt_i32(count)"))],
        self_closing: false,
    }];
    // User has 3 use_ref calls, so RSX refs start at slot 3
    let output = generate_component_rsx(&nodes, 0, 3);

    assert!(output.mount_code.contains("__volki_ref_set_i32(3,"));
    assert!(output.update_code.contains("__volki_ref_get_i32(3)"));
}

#[test]
fn test_rsx_string_literal_expr() {
    let nodes = vec![RsxNode::Element {
        tag: s("span"),
        attrs: Vec::new(),
        children: vec![RsxNode::Expr(s("\"hello world\""))],
        self_closing: false,
    }];
    let output = generate_component_rsx(&nodes, 0, 0);

    // String literal update should pass the literal directly
    assert!(output.update_code.contains("\"hello world\".as_ptr()"));
}

#[test]
fn test_rsx_multiple_dynamic_slots() {
    let nodes = vec![RsxNode::Element {
        tag: s("div"),
        attrs: Vec::new(),
        children: vec![
            RsxNode::Expr(s("state::fmt_i32(a)")),
            RsxNode::Text(s(" + ")),
            RsxNode::Expr(s("state::fmt_i32(b)"))
        ],
        self_closing: false,
    }];
    let output = generate_component_rsx(&nodes, 0, 0);

    assert_eq!(output.ref_slots_used, 2);
    assert!(output.mount_code.contains("__volki_ref_set_i32(0,"));
    assert!(output.mount_code.contains("__volki_ref_set_i32(1,"));
    assert!(output.update_code.contains("__volki_ref_get_i32(0)"));
    assert!(output.update_code.contains("__volki_ref_get_i32(1)"));
}

#[test]
fn rsx_exact_mount_and_update() {
    let nodes = vec![RsxNode::Element {
        tag: s("p"),
        attrs: vec![
            RsxAttr { name: s("class"), value: RsxAttrValue::Literal(s(" a  b ")) },
            RsxAttr { name: s("id"), value: RsxAttrValue::Literal(s("x")) },
            RsxAttr { name: s("title"), value: RsxAttrValue::Expr(s("t")) },
        ],
        children: vec![RsxNode::Expr(s(" name "))],
        self_closing: false,
    }];
    let out = generate_component_rsx(&nodes, 7, 2);
    assert_eq!(
        out.mount_code.as_str(),
        "let __rsx_mp = __volki_component_mount_point(7);\n\
let __rn0 = __volki_dom_create(\"p\".as_ptr() as i32, 1);\n\
__volki_dom_add_class(__rn0, \"a\".as_ptr() as i32, 1);\n\
__volki_dom_add_class(__rn0, \"b\".as_ptr() as i32, 1);\n\
__volki_dom_set_attr(__rn0, \"id\".as_ptr() as i32, 2, \"x\".as_ptr() as i32, 1);\n\
let __rd1 = __volki_dom_create_text(\"\".as_ptr() as i32, 0);\n\
__volki_dom_append(__rn0, __rd1);\n\
__volki_ref_set_i32(2, __rd1);\n\
__volki_dom_append(__rsx_mp, __rn0);\n"
    );
    assert_eq!(
        out.update_code.as_str(),
        "let __dyn0 = __volki_ref_get_i32(2);\n__volki_dom_set_text(__dyn0, (name).as_ptr() as i32, (name).len() as i32);\n"
    );
    assert!(!out.needs_fmt_f32);
    assert!(out.needs_set_attr);
}

#[test]
fn rsx_fmt_f32_and_conditionals_skipped() {
    let nodes = vec![
        RsxNode::CondAnd { condition: s("x"), body: vec![RsxNode::Text(s("hidden"))] },
        RsxNode::Expr(s("state::fmt_f32(temp)")),
    ];
    let out = generate_component_rsx(&nodes, 0, 0);
    assert!(out.update_code.contains("__volki_state_fmt_f32(temp, __rfb0, 20);"));
    assert!(out.needs_fmt_f32);
    assert!(!out.needs_fmt_i32);
    assert!(!out.mount_code.contains("hidden"));
    assert_eq!(out.ref_slots_used, 1);
}
