//! The WASM module of a source file: the runtime preamble, the extern imports
//! that its functions use, the state helpers, and the exported Component and
//! Client functions.

use vstd::prelude::*;
use vstd::string::StringSliceAdditionalSpecFns;
use super::scanner::RsxFunction;
use super::parser::RsxNode;
use super::semantic::{char_pieces, texts};
use super::wasm_codegen::{
    bytes_text, logic_range, ref_lines, span_text, extern_decls, all_bindings, bindings_view, BindingView,
    StateHelperKind, StateHelperBinding, ParamAbi, component_fn_code, client_fn_code, span_text_of,
    extract_user_externs, collect_state_helper_bindings, count_user_refs, generate_component_fn, generate_client_fn,
};
use super::wasm_rsx_codegen::{WasmRsxOutput, WalkView, walk_nodes, start_view, nodes_count, exprs_count, output_is};
use crate::text::{push_str, push_decimal, decimal, contains, occurs_in};

verus! {

/// The number of import groups a module may declare.
pub const IMPORT_COUNT: usize = 42;

/// The runtime preamble: `no_std`, a panic handler and a bump allocator.
pub open spec fn preamble() -> Seq<char> {
    "#![no_std]\n"@ + "#![no_main]\n\n"@ + "#[panic_handler]\n"@ + "fn panic(_: &core::panic::PanicInfo) -> ! { loop {} }\n\n"@
        + "static mut HEAP: [u8; 65536] = [0u8; 65536];\n"@ + "static mut HEAP_PTR: usize = 0;\n\n"@ + "#[unsafe(no_mangle)]\n"@
        + "pub extern \"C\" fn __volki_alloc(size: i32) -> i32 {\n"@ + "    unsafe {\n"@
        + "        let ptr = core::ptr::addr_of!(HEAP_PTR).read();\n"@ + "        let new_ptr = ptr + size as usize;\n"@
        + "        if new_ptr > 65536 { return 0; }\n"@ + "        core::ptr::addr_of_mut!(HEAP_PTR).write(new_ptr);\n"@
        + "        core::ptr::addr_of_mut!(HEAP).cast::<u8>().add(ptr) as i32\n"@ + "    }\n"@ + "}\n\n"@
        + "#[unsafe(no_mangle)]\n"@ + "pub extern \"C\" fn __volki_dealloc() {\n"@
        + "    unsafe { core::ptr::addr_of_mut!(HEAP_PTR).write(0); }\n"@ + "}\n\n"@
}

/// Appends the runtime preamble.
fn push_preamble(out: &mut String)
    ensures
        final(out)@ == old(out)@ + preamble(),
{
    push_str(out, "#![no_std]\n");
    push_str(out, "#![no_main]\n\n");
    push_str(out, "#[panic_handler]\n");
    push_str(out, "fn panic(_: &core::panic::PanicInfo) -> ! { loop {} }\n\n");
    push_str(out, "static mut HEAP: [u8; 65536] = [0u8; 65536];\n");
    push_str(out, "static mut HEAP_PTR: usize = 0;\n\n");
    push_str(out, "#[unsafe(no_mangle)]\n");
    push_str(out, "pub extern \"C\" fn __volki_alloc(size: i32) -> i32 {\n");
    push_str(out, "    unsafe {\n");
    push_str(out, "        let ptr = core::ptr::addr_of!(HEAP_PTR).read();\n");
    push_str(out, "        let new_ptr = ptr + size as usize;\n");
    push_str(out, "        if new_ptr > 65536 { return 0; }\n");
    push_str(out, "        core::ptr::addr_of_mut!(HEAP_PTR).write(new_ptr);\n");
    push_str(out, "        core::ptr::addr_of_mut!(HEAP).cast::<u8>().add(ptr) as i32\n");
    push_str(out, "    }\n");
    push_str(out, "}\n\n");
    push_str(out, "#[unsafe(no_mangle)]\n");
    push_str(out, "pub extern \"C\" fn __volki_dealloc() {\n");
    push_str(out, "    unsafe { core::ptr::addr_of_mut!(HEAP_PTR).write(0); }\n");
    push_str(out, "}\n\n");
}

/// The extern declarations of the `k`-th import group.
pub open spec fn import_text(k: int) -> Seq<char> {
    if k == 0 {
        "    fn __volki_component_begin(id: i32);\n"@ + "    fn __volki_component_end();\n"@
    } else if k == 1 {
        "    fn __volki_component_is_mounted(id: i32) -> i32;\n"@
    } else if k == 2 {
        "    fn __volki_component_mount_point(id: i32) -> i32;\n"@
    } else if k == 3 {
        "    fn __volki_state_init_i32(slot: i32, initial: i32) -> i32;\n"@
    } else if k == 4 {
        "    fn __volki_state_init_f32(slot: i32, initial: f32) -> f32;\n"@
    } else if k == 5 {
        "    fn __volki_state_init_str(slot: i32, ptr: i32, len: i32) -> i32;\n"@ + "    fn __volki_state_init_str_len(slot: i32) -> i32;\n"@
    } else if k == 6 {
        "    fn __volki_xstate_get_i32(comp_id: i32, slot: i32) -> i32;\n"@
    } else if k == 7 {
        "    fn __volki_xstate_set_i32(comp_id: i32, slot: i32, value: i32);\n"@
    } else if k == 8 {
        "    fn __volki_xstate_get_f32(comp_id: i32, slot: i32) -> f32;\n"@
    } else if k == 9 {
        "    fn __volki_xstate_set_f32(comp_id: i32, slot: i32, value: f32);\n"@
    } else if k == 10 {
        "    fn __volki_xstate_get_str(comp_id: i32, slot: i32) -> i32;\n"@
            + "    fn __volki_xstate_get_str_len(comp_id: i32, slot: i32) -> i32;\n"@
    } else if k == 11 {
        "    fn __volki_xstate_set_str(comp_id: i32, slot: i32, ptr: i32, len: i32);\n"@
    } else if k == 12 {
        "    fn __volki_state_fmt_i32(value: i32, buf_ptr: i32, buf_len: i32) -> i32;\n"@
    } else if k == 13 {
        "    fn __volki_state_fmt_f32(value: f32, buf_ptr: i32, buf_len: i32) -> i32;\n"@
    } else if k == 14 {
        "    fn __volki_effect_register(slot: i32, dep_count: i32);\n"@
            + "    fn __volki_effect_set_dep(slot: i32, dep_idx: i32, value: i32);\n"@
    } else if k == 15 {
        "    fn __volki_memo_begin(slot: i32, dep_count: i32);\n"@ + "    fn __volki_memo_set_dep(slot: i32, dep_idx: i32, value: i32);\n"@
            + "    fn __volki_memo_changed(slot: i32) -> i32;\n"@
    } else if k == 16 {
        "    fn __volki_memo_store_i32(slot: i32, value: i32);\n"@ + "    fn __volki_memo_load_i32(slot: i32) -> i32;\n"@
    } else if k == 17 {
        "    fn __volki_memo_store_f32(slot: i32, value: f32);\n"@ + "    fn __volki_memo_load_f32(slot: i32) -> f32;\n"@
    } else if k == 18 {
        "    fn __volki_ref_init_i32(slot: i32, initial: i32) -> i32;\n"@
    } else if k == 19 {
        "    fn __volki_ref_init_f32(slot: i32, initial: f32) -> f32;\n"@
    } else if k == 20 {
        "    fn __volki_ref_init_el(slot: i32, sel_ptr: i32, sel_len: i32) -> i32;\n"@
    } else if k == 21 {
        "    fn __volki_ref_get_i32(slot: i32) -> i32;\n"@
    } else if k == 22 {
        "    fn __volki_ref_set_i32(slot: i32, value: i32);\n"@
    } else if k == 23 {
        "    fn __volki_ref_get_f32(slot: i32) -> f32;\n"@
    } else if k == 24 {
        "    fn __volki_ref_set_f32(slot: i32, value: f32);\n"@
    } else if k == 25 {
        "    fn __volki_dom_query(sel_ptr: i32, sel_len: i32) -> i32;\n"@
    } else if k == 26 {
        "    fn __volki_dom_set_text(handle: i32, text_ptr: i32, text_len: i32);\n"@
    } else if k == 27 {
        "    fn __volki_dom_get_value(handle: i32) -> i32;\n"@ + "    fn __volki_dom_get_value_len(handle: i32) -> i32;\n"@
    } else if k == 28 {
        "    fn __volki_dom_set_attr(handle: i32, name_ptr: i32, name_len: i32, val_ptr: i32, val_len: i32);\n"@
    } else if k == 29 {
        "    fn __volki_dom_add_class(handle: i32, cls_ptr: i32, cls_len: i32);\n"@
    } else if k == 30 {
        "    fn __volki_dom_remove_class(handle: i32, cls_ptr: i32, cls_len: i32);\n"@
    } else if k == 31 {
        "    fn __volki_console_log(msg_ptr: i32, msg_len: i32);\n"@ + "    fn __volki_console_log_i32(value: i32);\n"@
    } else if k == 32 {
        "    fn __volki_dom_create(tag_ptr: i32, tag_len: i32) -> i32;\n"@
    } else if k == 33 {
        "    fn __volki_dom_create_text(text_ptr: i32, text_len: i32) -> i32;\n"@
    } else if k == 34 {
        "    fn __volki_dom_append(parent: i32, child: i32);\n"@
    } else if k == 35 {
        "    fn __volki_dom_remove(handle: i32);\n"@
    } else if k == 36 {
        "    fn __volki_dom_set_html(handle: i32, html_ptr: i32, html_len: i32);\n"@
    } else if k == 37 {
        "    fn __volki_dom_toggle_class(handle: i32, cls_ptr: i32, cls_len: i32);\n"@
    } else if k == 38 {
        "    fn __volki_dom_get_attr(handle: i32, name_ptr: i32, name_len: i32) -> i32;\n"@
            + "    fn __volki_dom_get_attr_len(handle: i32, name_ptr: i32, name_len: i32) -> i32;\n"@
    } else if k == 39 {
        "    fn __volki_dom_remove_attr(handle: i32, name_ptr: i32, name_len: i32);\n"@
    } else if k == 40 {
        "    fn __volki_dom_query_all_count(sel_ptr: i32, sel_len: i32) -> i32;\n"@
    } else if k == 41 {
        "    fn __volki_dom_query_all_get(sel_ptr: i32, sel_len: i32, idx: i32) -> i32;\n"@
    } else {
        Seq::empty()
    }
}

/// Appends the extern declarations of the `k`-th import group.
fn push_import(out: &mut String, k: usize)
    ensures
        final(out)@ == old(out)@ + import_text(k as int),
{
    if k == 0 {
        push_str(out, "    fn __volki_component_begin(id: i32);\n");
        push_str(out, "    fn __volki_component_end();\n");
    } else if k == 1 {
        push_str(out, "    fn __volki_component_is_mounted(id: i32) -> i32;\n");
    } else if k == 2 {
        push_str(out, "    fn __volki_component_mount_point(id: i32) -> i32;\n");
    } else if k == 3 {
        push_str(out, "    fn __volki_state_init_i32(slot: i32, initial: i32) -> i32;\n");
    } else if k == 4 {
        push_str(out, "    fn __volki_state_init_f32(slot: i32, initial: f32) -> f32;\n");
    } else if k == 5 {
        push_str(out, "    fn __volki_state_init_str(slot: i32, ptr: i32, len: i32) -> i32;\n");
        push_str(out, "    fn __volki_state_init_str_len(slot: i32) -> i32;\n");
    } else if k == 6 {
        push_str(out, "    fn __volki_xstate_get_i32(comp_id: i32, slot: i32) -> i32;\n");
    } else if k == 7 {
        push_str(out, "    fn __volki_xstate_set_i32(comp_id: i32, slot: i32, value: i32);\n");
    } else if k == 8 {
        push_str(out, "    fn __volki_xstate_get_f32(comp_id: i32, slot: i32) -> f32;\n");
    } else if k == 9 {
        push_str(out, "    fn __volki_xstate_set_f32(comp_id: i32, slot: i32, value: f32);\n");
    } else if k == 10 {
        push_str(out, "    fn __volki_xstate_get_str(comp_id: i32, slot: i32) -> i32;\n");
        push_str(out, "    fn __volki_xstate_get_str_len(comp_id: i32, slot: i32) -> i32;\n");
    } else if k == 11 {
        push_str(out, "    fn __volki_xstate_set_str(comp_id: i32, slot: i32, ptr: i32, len: i32);\n");
    } else if k == 12 {
        push_str(out, "    fn __volki_state_fmt_i32(value: i32, buf_ptr: i32, buf_len: i32) -> i32;\n");
    } else if k == 13 {
        push_str(out, "    fn __volki_state_fmt_f32(value: f32, buf_ptr: i32, buf_len: i32) -> i32;\n");
    } else if k == 14 {
        push_str(out, "    fn __volki_effect_register(slot: i32, dep_count: i32);\n");
        push_str(out, "    fn __volki_effect_set_dep(slot: i32, dep_idx: i32, value: i32);\n");
    } else if k == 15 {
        push_str(out, "    fn __volki_memo_begin(slot: i32, dep_count: i32);\n");
        push_str(out, "    fn __volki_memo_set_dep(slot: i32, dep_idx: i32, value: i32);\n");
        push_str(out, "    fn __volki_memo_changed(slot: i32) -> i32;\n");
    } else if k == 16 {
        push_str(out, "    fn __volki_memo_store_i32(slot: i32, value: i32);\n");
        push_str(out, "    fn __volki_memo_load_i32(slot: i32) -> i32;\n");
    } else if k == 17 {
        push_str(out, "    fn __volki_memo_store_f32(slot: i32, value: f32);\n");
        push_str(out, "    fn __volki_memo_load_f32(slot: i32) -> f32;\n");
    } else if k == 18 {
        push_str(out, "    fn __volki_ref_init_i32(slot: i32, initial: i32) -> i32;\n");
    } else if k == 19 {
        push_str(out, "    fn __volki_ref_init_f32(slot: i32, initial: f32) -> f32;\n");
    } else if k == 20 {
        push_str(out, "    fn __volki_ref_init_el(slot: i32, sel_ptr: i32, sel_len: i32) -> i32;\n");
    } else if k == 21 {
        push_str(out, "    fn __volki_ref_get_i32(slot: i32) -> i32;\n");
    } else if k == 22 {
        push_str(out, "    fn __volki_ref_set_i32(slot: i32, value: i32);\n");
    } else if k == 23 {
        push_str(out, "    fn __volki_ref_get_f32(slot: i32) -> f32;\n");
    } else if k == 24 {
        push_str(out, "    fn __volki_ref_set_f32(slot: i32, value: f32);\n");
    } else if k == 25 {
        push_str(out, "    fn __volki_dom_query(sel_ptr: i32, sel_len: i32) -> i32;\n");
    } else if k == 26 {
        push_str(out, "    fn __volki_dom_set_text(handle: i32, text_ptr: i32, text_len: i32);\n");
    } else if k == 27 {
        push_str(out, "    fn __volki_dom_get_value(handle: i32) -> i32;\n");
        push_str(out, "    fn __volki_dom_get_value_len(handle: i32) -> i32;\n");
    } else if k == 28 {
        push_str(out, "    fn __volki_dom_set_attr(handle: i32, name_ptr: i32, name_len: i32, val_ptr: i32, val_len: i32);\n");
    } else if k == 29 {
        push_str(out, "    fn __volki_dom_add_class(handle: i32, cls_ptr: i32, cls_len: i32);\n");
    } else if k == 30 {
        push_str(out, "    fn __volki_dom_remove_class(handle: i32, cls_ptr: i32, cls_len: i32);\n");
    } else if k == 31 {
        push_str(out, "    fn __volki_console_log(msg_ptr: i32, msg_len: i32);\n");
        push_str(out, "    fn __volki_console_log_i32(value: i32);\n");
    } else if k == 32 {
        push_str(out, "    fn __volki_dom_create(tag_ptr: i32, tag_len: i32) -> i32;\n");
    } else if k == 33 {
        push_str(out, "    fn __volki_dom_create_text(text_ptr: i32, text_len: i32) -> i32;\n");
    } else if k == 34 {
        push_str(out, "    fn __volki_dom_append(parent: i32, child: i32);\n");
    } else if k == 35 {
        push_str(out, "    fn __volki_dom_remove(handle: i32);\n");
    } else if k == 36 {
        push_str(out, "    fn __volki_dom_set_html(handle: i32, html_ptr: i32, html_len: i32);\n");
    } else if k == 37 {
        push_str(out, "    fn __volki_dom_toggle_class(handle: i32, cls_ptr: i32, cls_len: i32);\n");
    } else if k == 38 {
        push_str(out, "    fn __volki_dom_get_attr(handle: i32, name_ptr: i32, name_len: i32) -> i32;\n");
        push_str(out, "    fn __volki_dom_get_attr_len(handle: i32, name_ptr: i32, name_len: i32) -> i32;\n");
    } else if k == 39 {
        push_str(out, "    fn __volki_dom_remove_attr(handle: i32, name_ptr: i32, name_len: i32);\n");
    } else if k == 40 {
        push_str(out, "    fn __volki_dom_query_all_count(sel_ptr: i32, sel_len: i32) -> i32;\n");
    } else if k == 41 {
        push_str(out, "    fn __volki_dom_query_all_get(sel_ptr: i32, sel_len: i32, idx: i32) -> i32;\n");
    }
}

/// The body text mentions `p` (`p` occurs in it).
#[verifier::opaque]
pub open spec fn mentions(h: Seq<char>, p: Seq<char>) -> bool {
    occurs_in(h, p)
}

/// Whether `h` mentions `p` (`mentions`).
fn mention(h: &str, p: &str) -> (r: bool)
    ensures
        r == mentions(h@, p@),
{
    proof { reveal(mentions); }
    contains(h, p)
}

/// Whether a function body with text `h` needs the `k`-th import group.
#[verifier::opaque]
pub open spec fn body_flag(k: int, h: Seq<char>) -> bool {
    if k == 3 {
        mentions(h, "use_state("@) && (mentions(h, "_i32"@) || mentions(h, "true"@) || mentions(h, "false"@)
            || (!mentions(h, "_f32"@) && !mentions(h, "use_state(\""@)))
    } else if k == 4 {
        mentions(h, "use_state("@) && mentions(h, "_f32"@)
    } else if k == 5 {
        mentions(h, "use_state("@) && mentions(h, "use_state(\""@)
    } else if k == 6 {
        mentions(h, "state::get_i32("@)
    } else if k == 7 {
        mentions(h, "state::set_i32("@)
    } else if k == 8 {
        mentions(h, "state::get_f32("@)
    } else if k == 9 {
        mentions(h, "state::set_f32("@)
    } else if k == 10 {
        mentions(h, "state::get_str("@)
    } else if k == 11 {
        mentions(h, "state::set_str("@)
    } else if k == 12 {
        mentions(h, "state::fmt_i32("@)
    } else if k == 13 {
        mentions(h, "state::fmt_f32("@)
    } else if k == 14 {
        mentions(h, "use_effect("@)
    } else if k == 15 {
        mentions(h, "use_memo_i32("@) || mentions(h, "use_memo_f32("@)
    } else if k == 16 {
        mentions(h, "use_memo_i32("@)
    } else if k == 17 {
        mentions(h, "use_memo_f32("@)
    } else if k == 18 {
        mentions(h, "use_ref("@) && !mentions(h, "use_ref_el("@) && (mentions(h, "_i32"@) || !mentions(h, "_f32"@))
    } else if k == 19 {
        mentions(h, "use_ref("@) && !mentions(h, "use_ref_el("@) && mentions(h, "_f32"@)
    } else if k == 20 {
        mentions(h, "use_ref_el("@)
    } else if k == 21 {
        mentions(h, "ref::get_i32("@)
    } else if k == 22 {
        mentions(h, "ref::set_i32("@)
    } else if k == 23 {
        mentions(h, "ref::get_f32("@)
    } else if k == 24 {
        mentions(h, "ref::set_f32("@)
    } else if k == 25 {
        mentions(h, "dom::query("@)
    } else if k == 26 {
        mentions(h, ".set_text("@)
    } else if k == 27 {
        mentions(h, ".get_value("@)
    } else if k == 28 {
        mentions(h, ".set_attr("@)
    } else if k == 29 {
        mentions(h, ".add_class("@)
    } else if k == 30 {
        mentions(h, ".remove_class("@)
    } else if k == 31 {
        mentions(h, "dom::log"@)
    } else if k == 32 {
        mentions(h, "dom::create("@)
    } else if k == 34 {
        mentions(h, "dom::append("@)
    } else if k == 35 {
        mentions(h, "dom::remove("@)
    } else if k == 36 {
        mentions(h, "dom::set_html("@)
    } else if k == 37 {
        mentions(h, ".toggle_class("@)
    } else if k == 38 {
        mentions(h, ".get_attr("@)
    } else if k == 39 {
        mentions(h, ".remove_attr("@)
    } else if k == 40 {
        mentions(h, "dom::query_all_count("@)
    } else if k == 41 {
        mentions(h, "dom::query_all_get("@)
    } else {
        false
    }
}

/// Whether the body `h` needs the `k`-th import group (`body_flag`).
fn body_flag_at(h: &str, k: usize) -> (r: bool)
    ensures
        r == body_flag(k as int, h@),
{
    proof { reveal(body_flag); }
    if k == 3 {
        mention(h, "use_state(") && (mention(h, "_i32") || mention(h, "true") || mention(h, "false")
            || (!mention(h, "_f32") && !mention(h, "use_state(\"")))
    } else if k == 4 {
        mention(h, "use_state(") && mention(h, "_f32")
    } else if k == 5 {
        mention(h, "use_state(") && mention(h, "use_state(\"")
    } else if k == 6 {
        mention(h, "state::get_i32(")
    } else if k == 7 {
        mention(h, "state::set_i32(")
    } else if k == 8 {
        mention(h, "state::get_f32(")
    } else if k == 9 {
        mention(h, "state::set_f32(")
    } else if k == 10 {
        mention(h, "state::get_str(")
    } else if k == 11 {
        mention(h, "state::set_str(")
    } else if k == 12 {
        mention(h, "state::fmt_i32(")
    } else if k == 13 {
        mention(h, "state::fmt_f32(")
    } else if k == 14 {
        mention(h, "use_effect(")
    } else if k == 15 {
        mention(h, "use_memo_i32(") || mention(h, "use_memo_f32(")
    } else if k == 16 {
        mention(h, "use_memo_i32(")
    } else if k == 17 {
        mention(h, "use_memo_f32(")
    } else if k == 18 {
        mention(h, "use_ref(") && !mention(h, "use_ref_el(") && (mention(h, "_i32") || !mention(h, "_f32"))
    } else if k == 19 {
        mention(h, "use_ref(") && !mention(h, "use_ref_el(") && mention(h, "_f32")
    } else if k == 20 {
        mention(h, "use_ref_el(")
    } else if k == 21 {
        mention(h, "ref::get_i32(")
    } else if k == 22 {
        mention(h, "ref::set_i32(")
    } else if k == 23 {
        mention(h, "ref::get_f32(")
    } else if k == 24 {
        mention(h, "ref::set_f32(")
    } else if k == 25 {
        mention(h, "dom::query(")
    } else if k == 26 {
        mention(h, ".set_text(")
    } else if k == 27 {
        mention(h, ".get_value(")
    } else if k == 28 {
        mention(h, ".set_attr(")
    } else if k == 29 {
        mention(h, ".add_class(")
    } else if k == 30 {
        mention(h, ".remove_class(")
    } else if k == 31 {
        mention(h, "dom::log")
    } else if k == 32 {
        mention(h, "dom::create(")
    } else if k == 34 {
        mention(h, "dom::append(")
    } else if k == 35 {
        mention(h, "dom::remove(")
    } else if k == 36 {
        mention(h, "dom::set_html(")
    } else if k == 37 {
        mention(h, ".toggle_class(")
    } else if k == 38 {
        mention(h, ".get_attr(")
    } else if k == 39 {
        mention(h, ".remove_attr(")
    } else if k == 40 {
        mention(h, "dom::query_all_count(")
    } else if k == 41 {
        mention(h, "dom::query_all_get(")
    } else {
        false
    }
}

/// The number of `use_ref` lines in the logic section of a component: where its
/// RSX ref slots start.
pub open spec fn logic_refs(b: Seq<u8>, f: RsxFunction) -> nat {
    ref_lines(char_pieces(bytes_text(b, logic_range(b, f).0, logic_range(b, f).1), '\n', 0, 0))
}

/// The RSX output of each component: the walk of its RSX nodes when it has
/// some, its ref slots starting after those of its own `use_ref` calls.
pub open spec fn rsx_views(b: Seq<u8>, comps: Seq<&RsxFunction>, rsx: Seq<Option<Vec<RsxNode>>>) -> Seq<Option<WalkView>> {
    Seq::new(comps.len(), |i: int| if i < rsx.len() && rsx[i] is Some {
        Some(walk_nodes(start_view(i as u32), rsx[i]->0@, "__rsx_mp"@, logic_refs(b, *comps[i])))
    } else {
        None
    })
}

/// The RSX nodes of the components fit the counters that number them.
pub open spec fn rsx_fits(b: Seq<u8>, comps: Seq<&RsxFunction>, rsx: Seq<Option<Vec<RsxNode>>>) -> bool {
    forall|i: int| 0 <= i < comps.len() && i < rsx.len() && #[trigger] rsx[i] is Some ==> {
        &&& nodes_count(rsx[i]->0@) <= u32::MAX
        &&& logic_refs(b, *comps[i]) + exprs_count(rsx[i]->0@) <= u32::MAX
    }
}

/// Whether an RSX output needs the `k`-th import group.
pub open spec fn walk_flag(w: WalkView, k: int) -> bool {
    if k == 1 || k == 2 {
        true
    } else if k == 12 {
        w.fmt_i32
    } else if k == 13 {
        w.fmt_f32
    } else if k == 21 {
        w.ref_get
    } else if k == 22 {
        w.ref_set
    } else if k == 26 {
        w.set_text
    } else if k == 28 {
        w.set_attr
    } else if k == 29 {
        w.add_class
    } else if k == 32 {
        w.create
    } else if k == 33 {
        w.create_text
    } else if k == 34 {
        w.append
    } else {
        false
    }
}

/// What decides the imports of a module.
pub struct ModuleFacts {
    pub bodies: Seq<Seq<char>>,
    pub components: nat,
    pub outs: Seq<Option<WalkView>>,
    pub helpers: Seq<BindingView>,
}

/// Whether the module needs the `k`-th import group: some body needs it, or it
/// is the component lifecycle and there are components, or an RSX output needs
/// it, or the state helpers use cross-component state of that type.
pub open spec fn module_flag(m: ModuleFacts, k: int) -> bool {
    ||| exists|j: int| 0 <= j < m.bodies.len() && #[trigger] body_flag(k, m.bodies[j])
    ||| k == 0 && m.components > 0
    ||| exists|i: int| 0 <= i < m.outs.len() && #[trigger] m.outs[i] is Some && walk_flag(m.outs[i]->0, k)
    ||| (k == 6 || k == 7) && m.helpers.len() > 0
    ||| (k == 8 || k == 9) && exists|i: int| 0 <= i < m.helpers.len() && #[trigger] m.helpers[i].kind == StateHelperKind::F32
}

/// The import groups below `n` that the module needs, in order.
pub open spec fn imports(m: ModuleFacts, n: int) -> Seq<char>
    decreases n,
{
    if n <= 0 {
        Seq::empty()
    } else {
        imports(m, n - 1) + if module_flag(m, n - 1) { import_text(n - 1) } else { Seq::empty() }
    }
}

/// One indented line per declaration.
pub open spec fn decl_lines(ds: Seq<Seq<char>>) -> Seq<char>
    decreases ds.len(),
{
    if ds.len() == 0 { Seq::empty() } else { decl_lines(ds.drop_last()) + "    "@ + ds.last() + "\n"@ }
}

/// The declarations of the `extern "C"` blocks of the bodies, in order.
pub open spec fn all_externs(bodies: Seq<Seq<char>>) -> Seq<Seq<char>>
    decreases bodies.len(),
{
    if bodies.len() == 0 { Seq::empty() } else { all_externs(bodies.drop_last()) + extern_decls(bodies.last(), 0) }
}

/// The logging helpers.
pub open spec fn log_helpers() -> Seq<char> {
    "fn __volki_log_str(msg: &str) {\n"@ + "    unsafe { __volki_console_log(msg.as_ptr() as i32, msg.len() as i32); }\n"@ + "}\n\n"@
        + "fn __volki_log_i32(val: i32) {\n"@ + "    unsafe { __volki_console_log_i32(val); }\n"@ + "}\n\n"@
}

/// The getter and setter functions of a state helper.
pub open spec fn helper_code(h: BindingView) -> Seq<char> {
    let (ty, get, set) = match h.kind {
        StateHelperKind::I32 => ("i32"@, "__volki_xstate_get_i32("@, "__volki_xstate_set_i32("@),
        StateHelperKind::F32 => ("f32"@, "__volki_xstate_get_f32("@, "__volki_xstate_set_f32("@),
    };
    let at = decimal(h.comp_id as nat) + ", "@ + decimal(h.slot);
    "fn "@ + h.getter + "() -> "@ + ty + " {\n"@ + "    unsafe { "@ + get + at + ") }\n"@ + "}\n\n"@ + "fn "@ + h.setter + "(value: "@ + ty
        + ") {\n"@ + "    unsafe { "@ + set + at + ", value); }\n"@ + "}\n\n"@
}

/// The state helper functions, in order.
pub open spec fn helpers_code(hs: Seq<BindingView>) -> Seq<char>
    decreases hs.len(),
{
    if hs.len() == 0 { Seq::empty() } else { helpers_code(hs.drop_last()) + helper_code(hs.last()) }
}

/// The mount and update code of an RSX output.
pub open spec fn walk_code(o: Option<WalkView>) -> Option<(Seq<char>, Seq<char>)> {
    match o {
        Some(w) => Some((w.mount, w.update)),
        None => None,
    }
}

/// The exported functions of the components, in order (numbered by position).
pub open spec fn comps_code(b: Seq<u8>, comps: Seq<&RsxFunction>, outs: Seq<Option<WalkView>>) -> Seq<char>
    decreases comps.len(),
{
    if comps.len() == 0 {
        Seq::empty()
    } else {
        let i = comps.len() - 1;
        comps_code(b, comps.drop_last(), outs) + component_fn_code(b, *comps[i], i as u32, walk_code(outs[i]))
    }
}

/// The exported functions of the clients, in order.
pub open spec fn clients_code(b: Seq<u8>, clients: Seq<&RsxFunction>, ids: Seq<(String, u32)>, abis: Seq<Seq<ParamAbi>>) -> Seq<char>
    decreases clients.len(),
{
    if clients.len() == 0 {
        Seq::empty()
    } else {
        let i = clients.len() - 1;
        clients_code(b, clients.drop_last(), ids, abis) + client_fn_code(b, *clients[i], ids, abis[i])
    }
}

/// The ids of the named components: their positions.
pub open spec fn component_ids_of(comps: Seq<&RsxFunction>) -> Seq<(String, u32)>
    decreases comps.len(),
{
    if comps.len() == 0 {
        Seq::empty()
    } else {
        let prev = component_ids_of(comps.drop_last());
        match comps.last().name {
            Some(n) => prev.push((n, (comps.len() - 1) as u32)),
            None => prev,
        }
    }
}

/// The bodies of the functions.
pub open spec fn bodies_of(b: Seq<u8>, fns: Seq<&RsxFunction>) -> Seq<Seq<char>> {
    fns.map_values(|f: &RsxFunction| span_text(b, f.body_span))
}

/// The parameter ABIs of each client.
pub open spec fn abis_view(v: Seq<Vec<ParamAbi>>) -> Seq<Seq<ParamAbi>> {
    v.map_values(|a: Vec<ParamAbi>| a@)
}

/// What decides the imports of the module of these functions.
pub open spec fn module_facts(b: Seq<u8>, clients: Seq<&RsxFunction>, comps: Seq<&RsxFunction>, rsx: Seq<Option<Vec<RsxNode>>>) -> ModuleFacts {
    ModuleFacts {
        bodies: bodies_of(b, clients + comps),
        components: comps.len(),
        outs: rsx_views(b, comps, rsx),
        helpers: all_bindings(b, comps, component_ids_of(comps)),
    }
}

/// The WASM module of Client and Component functions: the preamble, the extern
/// imports the module needs and the functions' own extern declarations, the
/// logging helpers when anything logs, the state helpers, the Component
/// functions and the Client functions.
pub open spec fn module_code(
    b: Seq<u8>,
    clients: Seq<&RsxFunction>,
    comps: Seq<&RsxFunction>,
    rsx: Seq<Option<Vec<RsxNode>>>,
    abis: Seq<Seq<ParamAbi>>,
) -> Seq<char> {
    let m = module_facts(b, clients, comps, rsx);
    preamble() + "unsafe extern \"C\" {\n"@ + imports(m, IMPORT_COUNT as int) + decl_lines(all_externs(m.bodies)) + "}\n\n"@
        + (if module_flag(m, 31) { log_helpers() } else { Seq::empty() }) + helpers_code(m.helpers)
        + comps_code(b, comps, m.outs) + clients_code(b, clients, component_ids_of(comps), abis)
}


/// RSX outputs agree with their walks.
pub open spec fn outs_match(outs: Seq<Option<WasmRsxOutput>>, views: Seq<Option<WalkView>>) -> bool {
    &&& outs.len() == views.len()
    &&& forall|i: int| 0 <= i < outs.len() ==> (#[trigger] outs[i] is Some <==> views[i] is Some)
    &&& forall|i: int| 0 <= i < outs.len() && #[trigger] outs[i] is Some ==> output_is(outs[i]->0, views[i]->0)
}

/// Whether the module needs the `k`-th import group (`module_flag`).
fn flag_for(
    k: usize,
    bodies: &Vec<String>,
    components: usize,
    outs: &Vec<Option<WasmRsxOutput>>,
    helpers: &Vec<StateHelperBinding>,
    Ghost(m): Ghost<ModuleFacts>,
) -> (r: bool)
    requires
        m.bodies == texts(bodies@),
        m.components == components,
        outs_match(outs@, m.outs),
        m.helpers == bindings_view(helpers@),
    ensures
        r == module_flag(m, k as int),
{
    let mut j: usize = 0;
    while j < bodies.len()
        invariant
            m.bodies == texts(bodies@),
            j <= bodies@.len(),
            forall|q: int| 0 <= q < j ==> !body_flag(k as int, #[trigger] m.bodies[q]),
        decreases bodies@.len() - j,
    {
        if body_flag_at(bodies[j].as_str(), k) {
            proof { assert(body_flag(k as int, m.bodies[j as int])); }
            return true;
        }
        j += 1;
    }
    if k == 0 && components > 0 {
        return true;
    }
    let mut i: usize = 0;
    while i < outs.len()
        invariant
            outs_match(outs@, m.outs),
            i <= outs@.len(),
            forall|q: int| 0 <= q < i && #[trigger] m.outs[q] is Some ==> !walk_flag(m.outs[q]->0, k as int),
        decreases outs@.len() - i,
    {
        match &outs[i] {
            Some(o) => {
                proof { assert(outs@[i as int] is Some); }
                let f = if k == 1 || k == 2 {
                    true
                } else if k == 12 {
                    o.needs_fmt_i32
                } else if k == 13 {
                    o.needs_fmt_f32
                } else if k == 21 {
                    o.needs_ref_get_i32
                } else if k == 22 {
                    o.needs_ref_set_i32
                } else if k == 26 {
                    o.needs_set_text
                } else if k == 28 {
                    o.needs_set_attr
                } else if k == 29 {
                    o.needs_add_class
                } else if k == 32 {
                    o.needs_create
                } else if k == 33 {
                    o.needs_create_text
                } else if k == 34 {
                    o.needs_append
                } else {
                    false
                };
                if f {
                    proof { assert(m.outs[i as int] is Some && walk_flag(m.outs[i as int]->0, k as int)); }
                    return true;
                }
            },
            None => {
                proof { assert(outs@[i as int] is None); }
            },
        }
        i += 1;
    }
    if (k == 6 || k == 7) && helpers.len() > 0 {
        return true;
    }
    if k == 8 || k == 9 {
        let mut h: usize = 0;
        while h < helpers.len()
            invariant
                m.helpers == bindings_view(helpers@),
                k == 8 || k == 9,
                h <= helpers@.len(),
                forall|q: int| 0 <= q < h ==> (#[trigger] m.helpers[q]).kind != StateHelperKind::F32,
            decreases helpers@.len() - h,
        {
            if helpers[h].kind == StateHelperKind::F32 {
                proof { assert(m.helpers[h as int].kind == StateHelperKind::F32); }
                return true;
            }
            h += 1;
        }
    }
    false
}

/// Appends the getter and setter functions of a state helper (`helper_code`).
fn push_helper(out: &mut String, h: &StateHelperBinding)
    ensures
        final(out)@ == old(out)@ + helper_code(binding_view_of(h)),
{
    let (ty, get, set) = match h.kind {
        StateHelperKind::I32 => ("i32", "__volki_xstate_get_i32(", "__volki_xstate_set_i32("),
        StateHelperKind::F32 => ("f32", "__volki_xstate_get_f32(", "__volki_xstate_set_f32("),
    };
    push_str(out, "fn ");
    push_str(out, h.getter.as_str());
    push_str(out, "() -> ");
    push_str(out, ty);
    push_str(out, " {\n");
    push_str(out, "    unsafe { ");
    push_str(out, get);
    push_decimal(out, h.comp_id as usize);
    push_str(out, ", ");
    push_decimal(out, h.slot as usize);
    push_str(out, ") }\n");
    push_str(out, "}\n\n");
    push_str(out, "fn ");
    push_str(out, h.setter.as_str());
    push_str(out, "(value: ");
    push_str(out, ty);
    push_str(out, ") {\n");
    push_str(out, "    unsafe { ");
    push_str(out, set);
    push_decimal(out, h.comp_id as usize);
    push_str(out, ", ");
    push_decimal(out, h.slot as usize);
    push_str(out, ", value); }\n");
    push_str(out, "}\n\n");
}

/// The view of a binding.
pub open spec fn binding_view_of(h: &StateHelperBinding) -> BindingView {
    super::wasm_codegen::binding_view(*h)
}


/// The function bodies lie in the source.
pub open spec fn spans_within(b: Seq<u8>, fns: Seq<&RsxFunction>) -> bool {
    forall|k: int| 0 <= k < fns.len() ==> (#[trigger] fns[k]).body_span.0 <= fns[k].body_span.1 <= b.len()
}

/// The ids of the named components (`component_ids_of`).
fn component_ids(comps: &[&RsxFunction]) -> (r: Vec<(String, u32)>)
    requires
        comps@.len() <= u32::MAX,
    ensures
        r@ == component_ids_of(comps@),
{
    let mut ids: Vec<(String, u32)> = Vec::new();
    let mut i: usize = 0;
    proof { assert(comps@.take(0) =~= Seq::<&RsxFunction>::empty()); }
    while i < comps.len()
        invariant
            comps@.len() <= u32::MAX,
            i <= comps@.len(),
            ids@ == component_ids_of(comps@.take(i as int)),
        decreases comps@.len() - i,
    {
        proof {
            assert(comps@.take(i + 1).drop_last() =~= comps@.take(i as int));
            assert(comps@.take(i + 1).last() == comps@[i as int]);
        }
        match &comps[i].name {
            Some(n) => {
                ids.push((n.clone(), i as u32));
            },
            None => {},
        }
        i += 1;
    }
    proof { assert(comps@.take(comps@.len() as int) =~= comps@); }
    ids
}

/// The texts of the bodies of the functions, appended to `bodies`, with the
/// declarations of their `extern "C"` blocks appended to `externs`.
fn collect_bodies(fns: &[&RsxFunction], source: &str, bodies: &mut Vec<String>, externs: &mut Vec<String>)
    requires
        spans_within(source.spec_bytes(), fns@),
        texts(old(externs)@) == all_externs(texts(old(bodies)@)),
    ensures
        texts(final(bodies)@) == texts(old(bodies)@) + bodies_of(source.spec_bytes(), fns@),
        texts(final(externs)@) == all_externs(texts(final(bodies)@)),
{
    let ghost start = texts(bodies@);
    let mut i: usize = 0;
    while i < fns.len()
        invariant
            spans_within(source.spec_bytes(), fns@),
            i <= fns@.len(),
            texts(bodies@) == start + bodies_of(source.spec_bytes(), fns@.take(i as int)),
            texts(externs@) == all_externs(texts(bodies@)),
        decreases fns@.len() - i,
    {
        let f = fns[i];
        let t = span_text_of(source, f.body_span);
        extract_user_externs(t.as_str(), externs);
        let ghost before = texts(bodies@);
        bodies.push(t);
        proof {
            assert(texts(bodies@) =~= before.push(t@));
            assert(texts(bodies@).drop_last() =~= before);
            assert(bodies_of(source.spec_bytes(), fns@.take(i + 1))
                =~= bodies_of(source.spec_bytes(), fns@.take(i as int)).push(span_text(source.spec_bytes(), f.body_span)));
        }
        i += 1;
    }
    proof { assert(fns@.take(fns@.len() as int) =~= fns@); }
}

/// The RSX output of each component (`rsx_views`).
fn rsx_outputs(comps: &[&RsxFunction], source: &str, rsx: &[Option<Vec<RsxNode>>]) -> (r: Vec<Option<WasmRsxOutput>>)
    requires
        spans_within(source.spec_bytes(), comps@),
        source.spec_bytes().len() < u32::MAX - 1,
        comps@.len() <= u32::MAX,
        rsx_fits(source.spec_bytes(), comps@, rsx@),
    ensures
        outs_match(r@, rsx_views(source.spec_bytes(), comps@, rsx@)),
{
    let ghost views = rsx_views(source.spec_bytes(), comps@, rsx@);
    let mut outs: Vec<Option<WasmRsxOutput>> = Vec::new();
    let mut i: usize = 0;
    while i < comps.len()
        invariant
            spans_within(source.spec_bytes(), comps@),
            source.spec_bytes().len() < u32::MAX - 1,
            comps@.len() <= u32::MAX,
            rsx_fits(source.spec_bytes(), comps@, rsx@),
            views == rsx_views(source.spec_bytes(), comps@, rsx@),
            i <= comps@.len(),
            outs_match(outs@, views.take(i as int)),
        decreases comps@.len() - i,
    {
        let ghost before = outs@;
        if i < rsx.len() {
            match &rsx[i] {
                Some(nodes) => {
                    proof { assert(rsx@[i as int] is Some); }
                    let offset = count_user_refs(comps[i], source);
                    let o = super::wasm_rsx_codegen::generate_component_rsx(nodes, i as u32, offset);
                    outs.push(Some(o));
                },
                None => {
                    outs.push(None);
                },
            }
        } else {
            outs.push(None);
        }
        proof {
            assert(outs@.drop_last() =~= before);
            assert forall|q: int| 0 <= q < outs@.len() implies (#[trigger] outs@[q] is Some <==> views.take(i + 1)[q] is Some) by {
                if q < i {
                    assert(outs@[q] == before[q]);
                }
            }
            assert forall|q: int| 0 <= q < outs@.len() && #[trigger] outs@[q] is Some implies output_is(outs@[q]->0, views.take(i + 1)[q]->0) by {
                if q < i {
                    assert(outs@[q] == before[q]);
                }
            }
        }
        i += 1;
    }
    proof { assert(views.take(comps@.len() as int) =~= views); }
    outs
}

/// Appends the import groups the module needs (`imports`).
fn push_imports(
    out: &mut String,
    bodies: &Vec<String>,
    components: usize,
    outs: &Vec<Option<WasmRsxOutput>>,
    helpers: &Vec<StateHelperBinding>,
    Ghost(m): Ghost<ModuleFacts>,
)
    requires
        m.bodies == texts(bodies@),
        m.components == components,
        outs_match(outs@, m.outs),
        m.helpers == bindings_view(helpers@),
    ensures
        final(out)@ == old(out)@ + imports(m, IMPORT_COUNT as int),
{
    let mut k: usize = 0;
    while k < IMPORT_COUNT
        invariant
            m.bodies == texts(bodies@),
            m.components == components,
            outs_match(outs@, m.outs),
            m.helpers == bindings_view(helpers@),
            k <= IMPORT_COUNT,
            out@ == old(out)@ + imports(m, k as int),
        decreases IMPORT_COUNT - k,
    {
        if flag_for(k, bodies, components, outs, helpers, Ghost(m)) {
            push_import(out, k);
        }
        k += 1;
    }
}

/// Appends one indented line per declaration (`decl_lines`).
fn push_decls(out: &mut String, decls: &Vec<String>)
    ensures
        final(out)@ == old(out)@ + decl_lines(texts(decls@)),
{
    let ghost ds = texts(decls@);
    let mut i: usize = 0;
    proof { assert(ds.take(0) =~= Seq::<Seq<char>>::empty()); }
    while i < decls.len()
        invariant
            ds == texts(decls@),
            i <= decls@.len(),
            out@ == old(out)@ + decl_lines(ds.take(i as int)),
        decreases decls@.len() - i,
    {
        proof {
            assert(ds.take(i + 1).drop_last() =~= ds.take(i as int));
            assert(ds.take(i + 1).last() == decls@[i as int]@);
        }
        push_str(out, "    ");
        push_str(out, decls[i].as_str());
        push_str(out, "\n");
        i += 1;
    }
    proof { assert(ds.take(decls@.len() as int) =~= ds); }
}

/// Appends the state helper functions (`helpers_code`).
fn push_helpers(out: &mut String, helpers: &Vec<StateHelperBinding>)
    ensures
        final(out)@ == old(out)@ + helpers_code(bindings_view(helpers@)),
{
    let ghost hs = bindings_view(helpers@);
    let mut i: usize = 0;
    proof { assert(hs.take(0) =~= Seq::<BindingView>::empty()); }
    while i < helpers.len()
        invariant
            hs == bindings_view(helpers@),
            i <= helpers@.len(),
            out@ == old(out)@ + helpers_code(hs.take(i as int)),
        decreases helpers@.len() - i,
    {
        proof {
            assert(hs.take(i + 1).drop_last() =~= hs.take(i as int));
            assert(hs.take(i + 1).last() == binding_view_of(&helpers@[i as int]));
        }
        push_helper(out, &helpers[i]);
        i += 1;
    }
    proof { assert(hs.take(helpers@.len() as int) =~= hs); }
}

/// Appends the logging helpers.
fn push_log_helpers(out: &mut String)
    ensures
        final(out)@ == old(out)@ + log_helpers(),
{
    push_str(out, "fn __volki_log_str(msg: &str) {\n");
    push_str(out, "    unsafe { __volki_console_log(msg.as_ptr() as i32, msg.len() as i32); }\n");
    push_str(out, "}\n\n");
    push_str(out, "fn __volki_log_i32(val: i32) {\n");
    push_str(out, "    unsafe { __volki_console_log_i32(val); }\n");
    push_str(out, "}\n\n");
}

/// Appends the exported functions of the components (`comps_code`).
fn push_components(
    out: &mut String,
    comps: &[&RsxFunction],
    source: &str,
    outs: &Vec<Option<WasmRsxOutput>>,
    Ghost(views): Ghost<Seq<Option<WalkView>>>,
)
    requires
        spans_within(source.spec_bytes(), comps@),
        source.spec_bytes().len() < u32::MAX,
        comps@.len() <= u32::MAX,
        outs_match(outs@, views),
        outs@.len() == comps@.len(),
    ensures
        final(out)@ == old(out)@ + comps_code(source.spec_bytes(), comps@, views),
{
    let mut i: usize = 0;
    proof { assert(comps@.take(0) =~= Seq::<&RsxFunction>::empty()); }
    while i < comps.len()
        invariant
            spans_within(source.spec_bytes(), comps@),
            source.spec_bytes().len() < u32::MAX,
            comps@.len() <= u32::MAX,
            outs_match(outs@, views),
            outs@.len() == comps@.len(),
            i <= comps@.len(),
            out@ == old(out)@ + comps_code(source.spec_bytes(), comps@.take(i as int), views),
        decreases comps@.len() - i,
    {
        proof {
            assert(comps@.take(i + 1).drop_last() =~= comps@.take(i as int));
            assert(comps@.take(i + 1)[i as int] == comps@[i as int]);
        }
        match &outs[i] {
            Some(o) => {
                proof {
                    assert(outs@[i as int] is Some);
                    assert(super::wasm_codegen::rsx_code(Some(o)) == walk_code(views[i as int]));
                }
                generate_component_fn(comps[i], source, i as u32, Some(o), out);
            },
            None => {
                proof { assert(outs@[i as int] is None); }
                generate_component_fn(comps[i], source, i as u32, None, out);
            },
        }
        i += 1;
    }
    proof { assert(comps@.take(comps@.len() as int) =~= comps@); }
}

/// Appends the exported functions of the clients (`clients_code`).
fn push_clients(
    out: &mut String,
    clients: &[&RsxFunction],
    source: &str,
    ids: &Vec<(String, u32)>,
    abis: &[Vec<ParamAbi>],
)
    requires
        spans_within(source.spec_bytes(), clients@),
        source.spec_bytes().len() < u32::MAX,
        abis@.len() == clients@.len(),
        forall|i: int| 0 <= i < clients@.len() ==> (#[trigger] abis@[i])@.len() == clients@[i].params@.len(),
    ensures
        final(out)@ == old(out)@ + clients_code(source.spec_bytes(), clients@, ids@, abis_view(abis@)),
{
    let ghost av = abis_view(abis@);
    let mut i: usize = 0;
    proof { assert(clients@.take(0) =~= Seq::<&RsxFunction>::empty()); }
    while i < clients.len()
        invariant
            spans_within(source.spec_bytes(), clients@),
            source.spec_bytes().len() < u32::MAX,
            abis@.len() == clients@.len(),
            forall|q: int| 0 <= q < clients@.len() ==> (#[trigger] abis@[q])@.len() == clients@[q].params@.len(),
            av == abis_view(abis@),
            i <= clients@.len(),
            out@ == old(out)@ + clients_code(source.spec_bytes(), clients@.take(i as int), ids@, av),
        decreases clients@.len() - i,
    {
        proof {
            assert(clients@.take(i + 1).drop_last() =~= clients@.take(i as int));
            assert(clients@.take(i + 1)[i as int] == clients@[i as int]);
            assert(abis@[i as int]@.len() == clients@[i as int].params@.len());
        }
        generate_client_fn(clients[i], source, ids.as_slice(), abis[i].as_slice(), out);
        i += 1;
    }
    proof { assert(clients@.take(clients@.len() as int) =~= clients@); }
}

/// Generates the WASM module of the Client and Component functions of a source
/// (`module_code`). `component_rsx` holds the RSX nodes of each component that
/// has them; `client_param_abis` gives how each parameter of each client crosses
/// the WASM boundary.
pub fn generate_wasm_module(
    client_fns: &[&RsxFunction],
    component_fns: &[&RsxFunction],
    source: &str,
    component_rsx: &[Option<Vec<RsxNode>>],
    client_param_abis: &[Vec<ParamAbi>],
) -> (r: String)
    requires
        spans_within(source.spec_bytes(), client_fns@),
        spans_within(source.spec_bytes(), component_fns@),
        source.spec_bytes().len() < u32::MAX - 1,
        component_fns@.len() <= u32::MAX,
        rsx_fits(source.spec_bytes(), component_fns@, component_rsx@),
        client_param_abis@.len() == client_fns@.len(),
        forall|i: int| 0 <= i < client_fns@.len() ==> (#[trigger] client_param_abis@[i])@.len() == client_fns@[i].params@.len(),
    ensures
        r@ == module_code(source.spec_bytes(), client_fns@, component_fns@, component_rsx@, abis_view(client_param_abis@)),
{
    let ghost b = source.spec_bytes();
    let ghost m = module_facts(b, client_fns@, component_fns@, component_rsx@);
    let ids = component_ids(component_fns);
    let helpers = collect_state_helper_bindings(component_fns, source, &ids);
    let mut out = String::new();
    push_preamble(&mut out);
    let mut bodies: Vec<String> = Vec::new();
    let mut externs: Vec<String> = Vec::new();
    proof {
        assert(texts(externs@) =~= all_externs(texts(bodies@)));
    }
    collect_bodies(client_fns, source, &mut bodies, &mut externs);
    collect_bodies(component_fns, source, &mut bodies, &mut externs);
    proof {
        assert(texts(bodies@) =~= bodies_of(b, client_fns@ + component_fns@));
    }
    let outs = rsx_outputs(component_fns, source, component_rsx);
    push_str(&mut out, "unsafe extern \"C\" {\n");
    push_imports(&mut out, &bodies, component_fns.len(), &outs, &helpers, Ghost(m));
    push_decls(&mut out, &externs);
    push_str(&mut out, "}\n\n");
    if flag_for(31, &bodies, component_fns.len(), &outs, &helpers, Ghost(m)) {
        push_log_helpers(&mut out);
    }
    push_helpers(&mut out, &helpers);
    push_components(&mut out, component_fns, source, &outs, Ghost(m.outs));
    push_clients(&mut out, client_fns, source, &ids, client_param_abis);
    proof {
        assert(out@ =~= module_code(b, client_fns@, component_fns@, component_rsx@, abis_view(client_param_abis@)));
    }
    out
}


} // verus!
