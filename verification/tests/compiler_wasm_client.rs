use volki_web::compiler::wasm_codegen::{
    is_i32_arg, transform_client_body, transform_dom_append, transform_dom_create, transform_dom_log,
    transform_dom_query_all_count, transform_dom_query_all_get, transform_dom_remove, transform_dom_set_html,
    transform_ref_get, transform_ref_set, transform_set_attr, transform_state_get_str, transform_state_set_str,
    transform_component_body, transform_state_fmt_line, transform_use_effect, transform_use_memo, transform_use_ref,
    transform_use_ref_el, transform_use_state_str, transform_use_state_tuple,
};

#[test]
fn test_transform_client_body_if_else() {
    let body = r##"
            let status = dom::query("#conn-status");
            if visible == 1 {
                status.set_text("visible");
            } else {
                status.set_text("hidden");
            }
        "##;
    let ids: Vec<(String, u32)> = Vec::new();
    let result = transform_client_body(body, &ids);
    assert!(result.contains("}"));
    assert!(result.contains("} else {"));
    assert!(result.contains("if visible == 1 {"));
}

#[test]
fn test_transform_client_body_extern_still_stripped() {
    let body = r##"
            extern "C" {
                fn custom_fn(x: i32);
            }
            let el = dom::query("#btn");
            el.set_text("hi");
        "##;
    let ids: Vec<(String, u32)> = Vec::new();
    let result = transform_client_body(body, &ids);
    assert!(!result.contains("custom_fn"));
    assert!(!result.contains("extern"));
    assert!(result.contains("__volki_dom_query("));
    assert!(result.contains("__volki_dom_set_text("));
}

#[test]
fn client_body_exact_output_and_counter() {
    let body = "el.set_text(\"a\");\n\nextern \"C\" {\nfn f();\n}\n  el.set_text(\"b\");\nfoo();\n";
    let ids: Vec<(String, u32)> = Vec::new();
    assert_eq!(
        transform_client_body(body, &ids),
        "let __s0 = \"a\";\n__volki_dom_set_text(el, __s0.as_ptr() as i32, __s0.len() as i32);\n\
         let __s1 = \"b\";\n__volki_dom_set_text(el, __s1.as_ptr() as i32, __s1.len() as i32);\nfoo();\n"
    );
    assert_eq!(transform_client_body("", &ids), "");
}

#[test]
fn client_body_cross_component_state() {
    let ids = vec![(String::from("counter"), 2)];
    let body = "let c = state::get_i32(\"counter\", 0);\nstate::set_i32(\"counter\", 0, c + 1);";
    assert_eq!(
        transform_client_body(body, &ids),
        "let c = __volki_xstate_get_i32(2, 0);\n__volki_xstate_set_i32(2, 0, c + 1);\n"
    );
}

#[test]
fn ref_reads_and_writes() {
    assert_eq!(transform_ref_get("let x = ref::get_i32(2);").unwrap(), "let x = __volki_ref_get_i32(2);");
    assert_eq!(transform_ref_get("let y = ref::get_f32( 1 );").unwrap(), "let y = __volki_ref_get_f32(1);");
    assert!(transform_ref_get("ref::get_i32(2);").is_none());
    assert_eq!(transform_ref_set("ref::set_i32(0, count + 1);").unwrap(), "__volki_ref_set_i32(0, count + 1);");
    assert!(transform_ref_set("ref::set_f32(1);").is_none());
    assert!(transform_ref_set("x").is_none());
}

#[test]
fn string_state_across_components() {
    let ids = vec![(String::from("profile"), 7)];
    assert_eq!(
        transform_state_get_str("let name = state::get_str(\"profile\", 0);", &ids).unwrap(),
        "let __gsptr = __volki_xstate_get_str(7, 0);\nlet __gslen = __volki_xstate_get_str_len(7, 0);\n\
         let name = core::str::from_utf8_unchecked(core::slice::from_raw_parts(__gsptr as *const u8, __gslen as usize));"
    );
    let mut counter = 2;
    assert_eq!(
        transform_state_set_str("state::set_str(\"profile\", 1, \"bob\");", &ids, &mut counter).unwrap(),
        "let __ss2 = \"bob\";\n__volki_xstate_set_str(7, 1, __ss2.as_ptr() as i32, __ss2.len() as i32);"
    );
    assert_eq!(counter, 3);
    assert_eq!(
        transform_state_set_str("state::set_str(\"other\", 1, name);", &ids, &mut counter).unwrap(),
        "let __ss3 = name;\n__volki_xstate_set_str(0, 1, __ss3.as_ptr() as i32, __ss3.len() as i32);"
    );
    assert_eq!(counter, 4);
    assert!(transform_state_set_str("state::set_str(\"profile\", 1);", &ids, &mut counter).is_none());
    assert_eq!(counter, 4);
}

#[test]
fn dom_create_append_remove() {
    let mut counter = 5;
    assert_eq!(
        transform_dom_create("let div = dom::create(\"div\");", &mut counter).unwrap(),
        "let __ct = \"div\";\nlet div = __volki_dom_create(__ct.as_ptr() as i32, __ct.len() as i32);"
    );
    assert_eq!(
        transform_dom_create("let d = dom::create(tag);", &mut counter).unwrap(),
        "let d = __volki_dom_create(tag.as_ptr() as i32, tag.len() as i32);"
    );
    assert_eq!(counter, 5);
    assert_eq!(transform_dom_append("dom::append(list, item);").unwrap(), "__volki_dom_append(list, item);");
    assert!(transform_dom_append("dom::append(list);").is_none());
    assert_eq!(transform_dom_remove("dom::remove( item );").unwrap(), "__volki_dom_remove(item);");
}

#[test]
fn dom_set_html_and_queries() {
    let mut counter = 0;
    assert_eq!(
        transform_dom_set_html("dom::set_html(panel, \"<b>hi</b>\");", &mut counter).unwrap(),
        "let __h0 = \"<b>hi</b>\";\n__volki_dom_set_html(panel, __h0.as_ptr() as i32, __h0.len() as i32);"
    );
    assert_eq!(counter, 1);
    assert_eq!(
        transform_dom_query_all_count("let n = dom::query_all_count(\".item\");", &mut counter).unwrap(),
        "let __qac = \".item\";\nlet n = __volki_dom_query_all_count(__qac.as_ptr() as i32, __qac.len() as i32);"
    );
    assert_eq!(
        transform_dom_query_all_get("let it = dom::query_all_get(\".item\", i);", &mut counter).unwrap(),
        "let __qag = \".item\";\nlet it = __volki_dom_query_all_get(__qag.as_ptr() as i32, __qag.len() as i32, i);"
    );
    assert_eq!(
        transform_dom_query_all_get("let it = dom::query_all_get(sel, 0);", &mut counter).unwrap(),
        "let it = __volki_dom_query_all_get(sel.as_ptr() as i32, sel.len() as i32, 0);"
    );
    assert_eq!(counter, 1);
}

#[test]
fn set_attr_uses_two_temporaries() {
    let mut counter = 1;
    assert_eq!(
        transform_set_attr("btn.set_attr(\"disabled\", \"true\");", &mut counter).unwrap(),
        "let __n1 = \"disabled\";\nlet __v1 = \"true\";\n__volki_dom_set_attr(btn, __n1.as_ptr() as i32, __n1.len() as i32, \
         __v1.as_ptr() as i32, __v1.len() as i32);"
    );
    assert_eq!(counter, 2);
    assert!(transform_set_attr("btn.set_attr(\"disabled\");", &mut counter).is_none());
    assert_eq!(counter, 2);
}

#[test]
fn dom_log_detects_numbers_and_strings() {
    let body = "let n = state::get_i32(\"c\", 0);\nlet s = input.get_value();\nlet (k, set_k) = use_state(0_i32);";
    let mut counter = 0;
    assert_eq!(transform_dom_log("dom::log(\"hi\");", &mut counter, body).unwrap(), "let __l0 = \"hi\";\n__volki_log_str(__l0);");
    assert_eq!(transform_dom_log("dom::log(-42);", &mut counter, body).unwrap(), "__volki_log_i32(-42);");
    assert_eq!(transform_dom_log("dom::log(n);", &mut counter, body).unwrap(), "__volki_log_i32(n);");
    assert_eq!(transform_dom_log("dom::log(s);", &mut counter, body).unwrap(), "__volki_log_str(s);");
    assert_eq!(counter, 4);
    assert!(transform_dom_log("log(s);", &mut counter, body).is_none());
    assert_eq!(counter, 4);
    assert!(is_i32_arg("a + b", ""));
    assert!(is_i32_arg("get_count()", ""));
    assert!(is_i32_arg("k", body));
    assert!(!is_i32_arg("z", body));
    assert!(!is_i32_arg("-", body));
}

#[test]
fn test_transform_component_body_if_else() {
    let body = r##"
            let visible = use_state(0_i32);
            let overlay = dom::query("#dialog");
            if visible == 1 {
                overlay.add_class("visible");
            } else {
                overlay.remove_class("visible");
            }
        "##;
    let result = transform_component_body(body, 0);
    assert!(result.contains("}"));
    assert!(result.contains("} else {"));
    assert!(result.contains("if visible == 1 {"));
    assert!(result.contains("__volki_state_init_i32(0, 0)"));
}

#[test]
fn component_body_hooks_take_their_own_slots() {
    let body = "let count = use_state(0_i32);\n\
                let (n, set_n) = use_state(5);\n\
                let name = use_state(\"bob\");\n\
                let r = use_ref(1_f32);\n\
                let el = use_ref_el(\"#x\");\n\
                use_effect(&[count, n]);\n\
                let d = use_memo_i32(count * 2, &[count]);\n\
                let label = dom::query(\"#count\");\n\
                label.set_text(state::fmt_i32(count));\n\
                let s = state::get_i32(\"other\", 0);\n";
    let expected = "let count = __volki_state_init_i32(0, 0);\n\
        let n = __volki_state_init_i32(1, 5);\nlet set_n = |value: i32| {\n    __volki_xstate_set_i32(3, 1, value);\n};\n\
        let __sinit2 = \"bob\";\nlet __sptr = __volki_state_init_str(2, __sinit2.as_ptr() as i32, __sinit2.len() as i32);\n\
        let __slen = __volki_state_init_str_len(2);\n\
        let name = core::str::from_utf8_unchecked(core::slice::from_raw_parts(__sptr as *const u8, __slen as usize));\n\
        let r = __volki_ref_init_f32(0, 1);\n\
        let __rsel = \"#x\";\nlet el = __volki_ref_init_el(1, __rsel.as_ptr() as i32, __rsel.len() as i32);\n\
        __volki_effect_register(0, 2);\n__volki_effect_set_dep(0, 0, count);\n__volki_effect_set_dep(0, 1, n);\n\
        __volki_memo_begin(0, 1);\n__volki_memo_set_dep(0, 0, count);\n\
        let d = if __volki_memo_changed(0) == 1 {\n    let __mv = count * 2;\n    __volki_memo_store_i32(0, __mv);\n    __mv\n\
        } else {\n    __volki_memo_load_i32(0)\n};\n\
        let __q = \"#count\";\nlet label = __volki_dom_query(__q.as_ptr() as i32, __q.len() as i32);\n\
        let __fb0 = __volki_alloc(20);\nlet __fl0 = __volki_state_fmt_i32(count, __fb0, 20);\n\
        __volki_dom_set_text(label, __fb0, __fl0);\n\
        let s = state::get_i32(\"other\", 0);\n";
    assert_eq!(transform_component_body(body, 3), expected);
}

#[test]
fn hook_rewrites_and_their_counters() {
    let mut slot = 0;
    assert_eq!(transform_use_effect("use_effect(&[]);", &mut slot).unwrap(), "__volki_effect_register(0, 0);");
    assert_eq!(slot, 1);
    assert!(transform_use_effect("use_effect(x);", &mut slot).is_none());
    assert_eq!(slot, 1);
    let mut memo = 2;
    assert!(transform_use_memo("let d = use_memo_f32(x);", &mut memo).is_none());
    assert_eq!(memo, 2);
    let r = transform_use_memo("let d = use_memo_f32(x + 1.0, &[x, y]);", &mut memo).unwrap();
    assert!(r.starts_with("__volki_memo_begin(2, 2);\n__volki_memo_set_dep(2, 0, x);\n__volki_memo_set_dep(2, 1, y);\n"));
    assert!(r.ends_with("    __volki_memo_load_f32(2)\n};"));
    assert_eq!(memo, 3);
    let mut refs = 0;
    assert_eq!(transform_use_ref("let r = use_ref(7);", &mut refs).unwrap(), "let r = __volki_ref_init_i32(0, 7);");
    assert_eq!(
        transform_use_ref_el("let e = use_ref_el(sel);", &mut refs).unwrap(),
        "let e = __volki_ref_init_el(1, sel.as_ptr() as i32, sel.len() as i32);"
    );
    assert_eq!(refs, 2);
    let mut slots = 0;
    assert!(transform_use_state_str("let n = use_state(0_i32);", &mut slots).is_none());
    assert!(transform_use_state_tuple("let n = use_state(0_i32);", &mut slots, 1).is_none());
    assert_eq!(slots, 0);
    assert_eq!(
        transform_use_state_tuple("let (t, set_t) = use_state(1.5_f32);", &mut slots, 4).unwrap(),
        "let t = __volki_state_init_f32(0, 1.5);\nlet set_t = |value: f32| {\n    __volki_xstate_set_f32(4, 0, value);\n};"
    );
    assert_eq!(slots, 1);
}

#[test]
fn state_fmt_forms() {
    let mut var = 9;
    let mut fmt = 0;
    assert_eq!(
        transform_state_fmt_line("let txt = state::fmt_f32(t);", &mut var, &mut fmt).unwrap(),
        "let __fb0 = __volki_alloc(32);\nlet __fl0 = __volki_state_fmt_f32(t, __fb0, 32);"
    );
    assert_eq!(
        transform_state_fmt_line("show(state::fmt_i32(n));", &mut var, &mut fmt).unwrap(),
        "let __fb1 = __volki_alloc(20);\nlet __fl1 = __volki_state_fmt_i32(n, __fb1, 20);\n"
    );
    assert_eq!(fmt, 2);
    assert_eq!(var, 9);
    assert!(transform_state_fmt_line("show(n);", &mut var, &mut fmt).is_none());
    assert_eq!(fmt, 2);
}
