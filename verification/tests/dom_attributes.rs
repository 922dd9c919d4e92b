use volki_web::dom::Document;

#[test]
fn test_set_get_attribute() {
    let mut doc = Document::new();
    let div = doc.create_element("div");
    doc.set_attribute(div, "data-x", "42");
    assert_eq!(doc.get_attribute(div, "data-x"), Some("42"));
    assert_eq!(doc.get_attribute(div, "data-y"), None);
}

#[test]
fn test_remove_attribute() {
    let mut doc = Document::new();
    let div = doc.create_element("div");
    doc.set_attribute(div, "data-x", "42");
    doc.remove_attribute(div, "data-x");
    assert!(!doc.has_attribute(div, "data-x"));
}

#[test]
fn test_id_attribute() {
    let mut doc = Document::new();
    let div = doc.create_element("div");
    doc.set_attribute(div, "id", "main");
    assert_eq!(doc.get_attribute(div, "id"), Some("main"));
    assert!(doc.id_index.contains_key("main"));

    doc.set_attribute(div, "id", "other");
    assert!(!doc.id_index.contains_key("main"));
    assert!(doc.id_index.contains_key("other"));
}

#[test]
fn test_class_list() {
    let mut doc = Document::new();
    let div = doc.create_element("div");
    doc.class_list_add(div, "foo");
    doc.class_list_add(div, "bar");
    assert!(doc.class_list_contains(div, "foo"));
    assert!(doc.class_list_contains(div, "bar"));

    doc.class_list_remove(div, "foo");
    assert!(!doc.class_list_contains(div, "foo"));
    assert!(doc.class_list_contains(div, "bar"));
}

#[test]
fn test_class_list_toggle() {
    let mut doc = Document::new();
    let div = doc.create_element("div");
    assert!(doc.class_list_toggle(div, "active"));
    assert!(doc.class_list_contains(div, "active"));
    assert!(!doc.class_list_toggle(div, "active"));
    assert!(!doc.class_list_contains(div, "active"));
}

#[test]
fn test_set_class_attribute_syncs() {
    let mut doc = Document::new();
    let div = doc.create_element("div");
    doc.set_attribute(div, "class", "foo bar baz");
    assert!(doc.class_list_contains(div, "foo"));
    assert!(doc.class_list_contains(div, "bar"));
    assert!(doc.class_list_contains(div, "baz"));
}

#[test]
fn test_text_content() {
    let mut doc = Document::new();
    let div = doc.create_element("div");
    let t1 = doc.create_text("hello ");
    let span = doc.create_element("span");
    let t2 = doc.create_text("world");
    doc.append_child(div, t1);
    doc.append_child(div, span);
    doc.append_child(span, t2);

    assert_eq!(doc.text_content(div).as_str(), "hello world");
}

#[test]
fn test_set_text_content() {
    let mut doc = Document::new();
    let div = doc.create_element("div");
    let child = doc.create_element("span");
    doc.append_child(div, child);

    doc.set_text_content(div, "new text");
    assert_eq!(doc.text_content(div).as_str(), "new text");
    // The old child's slot may be reused by the new text node,
    // so we verify the div has exactly one text child.
    assert_eq!(doc.children_count(div), 1);
}

#[test]
fn test_tag_name() {
    let mut doc = Document::new();
    let div = doc.create_element("div");
    assert_eq!(doc.tag_name(div), Some("div"));

    let txt = doc.create_text("hi");
    assert_eq!(doc.tag_name(txt), None);
}
