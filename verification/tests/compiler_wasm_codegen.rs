use volki_web::compiler::wasm_codegen::{
    resolve_component_id, transform_dom_query, transform_get_value, transform_method_call, transform_state_get,
    transform_state_set, transform_use_state,
};

#[test]
fn test_transform_dom_query_literal() {
    let mut counter = 0;
    let result = transform_dom_query("let el = dom::query(\"#btn\");", &mut counter).unwrap();
    assert!(result.contains("__volki_dom_query("));
    assert!(result.contains("\"#btn\""));
}

#[test]
fn test_transform_dom_query_variable() {
    let mut counter = 0;
    let result = transform_dom_query("let el = dom::query(sel);", &mut counter).unwrap();
    assert!(result.contains("sel.as_ptr() as i32"));
    assert!(result.contains("sel.len() as i32"));
}

#[test]
fn test_transform_set_text() {
    let mut counter = 0;
    let result = transform_method_call("el.set_text(\"hello\");", ".set_text(", "__volki_dom_set_text", &mut counter).unwrap();
    assert!(result.contains("__volki_dom_set_text(el"));
}

#[test]
fn test_transform_get_value() {
    let result = transform_get_value("let term = input.get_value();").unwrap();
    assert!(result.contains("__volki_dom_get_value(input)"));
    assert!(result.contains("__volki_dom_get_value_len(input)"));
    assert!(result.contains("let term = core::str::from_utf8_unchecked"));
}

#[test]
fn test_transform_use_state_i32() {
    let mut slot = 0;
    let result = transform_use_state("let count = use_state(0_i32);", &mut slot).unwrap();
    assert_eq!(result, "let count = __volki_state_init_i32(0, 0);");
    assert_eq!(slot, 1);
}

#[test]
fn test_transform_use_state_f32() {
    let mut slot = 0;
    let result = transform_use_state("let temp = use_state(0.0_f32);", &mut slot).unwrap();
    assert_eq!(result, "let temp = __volki_state_init_f32(0, 0.0);");
    assert_eq!(slot, 1);
}

#[test]
fn test_transform_use_state_bool() {
    let mut slot = 2;
    let result = transform_use_state("let active = use_state(false);", &mut slot).unwrap();
    assert_eq!(result, "let active = __volki_state_init_i32(2, 0);");
    assert_eq!(slot, 3);
}

#[test]
fn test_transform_use_state_increments_slots() {
    let mut slot = 0;
    let _ = transform_use_state("let a = use_state(0_i32);", &mut slot);
    assert_eq!(slot, 1);
    let _ = transform_use_state("let b = use_state(false);", &mut slot);
    assert_eq!(slot, 2);
}

#[test]
fn test_transform_state_get() {
    let ids = vec![
        (String::from("counter"), 0),
        (String::from("timer"), 1),
    ];
    let result = transform_state_get("let count = state::get_i32(\"counter\", 0);", &ids).unwrap();
    assert_eq!(result, "let count = __volki_xstate_get_i32(0, 0);");
}

#[test]
fn test_transform_state_set() {
    let ids = vec![(String::from("counter"), 0)];
    let result = transform_state_set("state::set_i32(\"counter\", 0, count + 1);", &ids).unwrap();
    assert_eq!(result, "__volki_xstate_set_i32(0, 0, count + 1);");
}

#[test]
fn dom_query_exact_outputs() {
    let mut counter = 0;
    assert_eq!(
        transform_dom_query("let el = dom::query(\"#b\");", &mut counter).unwrap(),
        "let __q = \"#b\";\nlet el = __volki_dom_query(__q.as_ptr() as i32, __q.len() as i32);"
    );
    assert!(transform_dom_query("dom::query(\"#b\");", &mut counter).is_none());
    assert!(transform_dom_query("let el = dom::query(\"#b\"", &mut counter).is_none());
}

#[test]
fn method_call_literal_uses_counter() {
    let mut counter = 4;
    let r = transform_method_call("  el.add_class(\"on\");", ".add_class(", "__volki_dom_add_class", &mut counter).unwrap();
    assert_eq!(
        r,
        "let __s4 = \"on\";\n__volki_dom_add_class(el, __s4.as_ptr() as i32, __s4.len() as i32);"
    );
    assert_eq!(counter, 5);
    assert!(transform_method_call("el.other(1);", ".add_class(", "x", &mut counter).is_none());
    assert_eq!(counter, 5);
}

#[test]
fn paren_matching_skips_strings() {
    let mut counter = 0;
    let r = transform_method_call("el.set_text(\"a)b\");", ".set_text(", "f", &mut counter).unwrap();
    assert!(r.contains("\"a)b\""));
}

#[test]
fn state_ids_and_f32() {
    let ids = vec![(String::from("timer"), 3)];
    assert_eq!(resolve_component_id("timer", &ids), 3);
    assert_eq!(resolve_component_id("other", &ids), 0);
    assert_eq!(
        transform_state_get("let t = state::get_f32(\"timer\", 2);", &ids).unwrap(),
        "let t = __volki_xstate_get_f32(3, 2);"
    );
    assert_eq!(
        transform_state_set("state::set_f32(\"timer\", 1, t * 2.0);", &ids).unwrap(),
        "__volki_xstate_set_f32(3, 1, t * 2.0);"
    );
    assert!(transform_state_set("state::set_i32(\"timer\", 1);", &ids).is_none());
}

#[test]
fn use_state_plain_arg() {
    let mut slot = 0;
    assert_eq!(
        transform_use_state("let n = use_state(start);", &mut slot).unwrap(),
        "let n = __volki_state_init_i32(0, start);"
    );
}
