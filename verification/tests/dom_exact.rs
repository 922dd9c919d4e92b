use volki_web::dom::Document;
use volki_web::dom::mutation::{MutationObserverOptions, MutationRecord};
use volki_web::dom::parse::decode_entities;

#[test]
fn test_set_inner_html_empty_clears_children() {
    let mut doc = Document::new();
    let div = doc.create_element("div");
    let a = doc.create_text("a");
    let b = doc.create_element("span");
    doc.append_child(div, a);
    doc.append_child(div, b);
    doc.set_inner_html(div, "");
    assert_eq!(doc.children_count(div), 0);
    assert_eq!(doc.inner_html(div).as_str(), "");
}

#[test]
fn test_selector_list_and_trailing_text() {
    let mut doc = Document::new();
    let div = doc.create_element("div");
    let p = doc.create_element("p");
    doc.append_child(doc.root, div);
    doc.append_child(div, p);
    assert_eq!(doc.query_selector_all(doc.root, "p, div").len(), 2);
    assert_eq!(doc.query_selector(doc.root, "div )"), Some(div));
    assert_eq!(doc.query_selector(doc.root, "div > p"), Some(p));
    assert_eq!(doc.query_selector(doc.root, "p:unknown"), None);
    assert_eq!(doc.query_selector_all(doc.root, ".").len(), 0);
}

#[test]
fn test_selector_attr_and_nth_forms() {
    let mut doc = Document::new();
    let ul = doc.create_element("ul");
    doc.append_child(doc.root, ul);
    let mut items = Vec::new();
    for _ in 0..4 {
        let li = doc.create_element("li");
        doc.append_child(ul, li);
        items.push(li);
    }
    doc.set_attribute(items[1], "data-x", "hello");
    assert_eq!(doc.query_selector(doc.root, "li[data-x^='he']"), Some(items[1]));
    assert_eq!(doc.query_selector(doc.root, "li[ data-x = \"hello\" ]"), Some(items[1]));
    assert_eq!(doc.query_selector(doc.root, "li[data-x^x]"), None);
    assert_eq!(doc.query_selector_all(doc.root, "li:nth-child(2n)").len(), 2);
    assert_eq!(doc.query_selector_all(doc.root, "li:nth-child( odd )").len(), 2);
    assert_eq!(doc.query_selector_all(doc.root, "li:nth-child(-n+3)").len(), 3);
    assert_eq!(doc.query_selector_all(doc.root, "li:not(:first-child)").len(), 3);
}

#[test]
fn test_fragment_attributes_and_comment() {
    let mut doc = Document::new();
    let div = doc.create_element("div");
    doc.parse_html_fragment(div, "<A Href='x' checked data-v=1/><!--c-->t");
    assert_eq!(doc.children_count(div), 3);
    assert_eq!(doc.query_selector(div, "a[href=x]").is_some(), true);
    assert_eq!(doc.query_selector(div, "a[checked]").is_some(), true);
}

#[test]
fn test_class_list_toggle_on_text_node_is_false() {
    let mut doc = Document::new();
    let t = doc.create_text("x");
    assert!(!doc.class_list_toggle(t, "a"));
    assert!(!doc.class_list_contains(t, "a"));
}

#[test]
fn test_tree_methods_record_child_list() {
    let mut doc = Document::new();
    let div = doc.create_element("div");
    let span = doc.create_element("span");
    let idx = doc.observe(div, MutationObserverOptions::new().child_list(), 1);
    doc.append_child(div, span);
    let recs = doc.take_observer_records(idx);
    assert_eq!(recs.len(), 1);
    assert!(matches!(recs[0], MutationRecord::ChildList { target } if target == div));
    doc.remove_child(div, span);
    assert_eq!(doc.take_observer_records(idx).len(), 1);
    doc.set_inner_html(div, "<p>a</p><p>b</p>");
    assert_eq!(doc.take_observer_records(idx).len(), 1);
    doc.set_text_content(div, "hi");
    assert_eq!(doc.take_observer_records(idx).len(), 1);
}

#[test]
fn test_decode_entities_keeps_non_ascii() {
    assert_eq!(decode_entities("caf\u{e9} &amp; \u{1F600}").as_str(), "caf\u{e9} & \u{1F600}");
}

#[test]
fn test_outer_html_wraps_inner_html() {
    let mut doc = Document::new();
    let div = doc.create_element("div");
    doc.set_inner_html(div, "<p>a</p>text");
    let inner = doc.inner_html(div);
    assert_eq!(doc.outer_html(div), format!("<div>{}</div>", inner.as_str()));
}
