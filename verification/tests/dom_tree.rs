use volki_web::dom::Document;
use volki_web::dom::node::NodeKind;

#[test]
fn test_append_child() {
    let mut doc = Document::new();
    let parent = doc.create_element("div");
    let child1 = doc.create_element("span");
    let child2 = doc.create_text("hello");

    doc.append_child(doc.root, parent);
    doc.append_child(parent, child1);
    doc.append_child(parent, child2);

    assert_eq!(doc.get(parent).first_child, Some(child1));
    assert_eq!(doc.get(parent).last_child, Some(child2));
    assert_eq!(doc.get(child1).next_sibling, Some(child2));
    assert_eq!(doc.get(child2).prev_sibling, Some(child1));
    assert_eq!(doc.get(child1).parent, Some(parent));
}

#[test]
fn test_insert_before() {
    let mut doc = Document::new();
    let parent = doc.create_element("ul");
    let li1 = doc.create_element("li");
    let li2 = doc.create_element("li");
    let li3 = doc.create_element("li");

    doc.append_child(parent, li1);
    doc.append_child(parent, li3);
    doc.insert_before(parent, li2, Some(li3));

    assert_eq!(doc.get(parent).first_child, Some(li1));
    assert_eq!(doc.get(li1).next_sibling, Some(li2));
    assert_eq!(doc.get(li2).next_sibling, Some(li3));
    assert_eq!(doc.get(parent).last_child, Some(li3));
}

#[test]
fn test_remove_child() {
    let mut doc = Document::new();
    let parent = doc.create_element("div");
    let child = doc.create_element("span");
    doc.append_child(parent, child);
    doc.remove_child(parent, child);

    assert_eq!(doc.get(parent).first_child, None);
    assert_eq!(doc.get(parent).last_child, None);
    assert_eq!(doc.get(child).parent, None);
}

#[test]
fn test_replace_child() {
    let mut doc = Document::new();
    let parent = doc.create_element("div");
    let old = doc.create_element("span");
    let new = doc.create_element("p");
    doc.append_child(parent, old);
    doc.replace_child(parent, new, old);

    assert_eq!(doc.get(parent).first_child, Some(new));
    assert_eq!(doc.get(parent).last_child, Some(new));
    assert_eq!(doc.get(old).parent, None);
    assert_eq!(doc.get(new).parent, Some(parent));
}

#[test]
fn test_reparenting() {
    let mut doc = Document::new();
    let p1 = doc.create_element("div");
    let p2 = doc.create_element("div");
    let child = doc.create_element("span");

    doc.append_child(p1, child);
    assert_eq!(doc.get(child).parent, Some(p1));

    // Reparent to p2
    doc.append_child(p2, child);
    assert_eq!(doc.get(child).parent, Some(p2));
    assert_eq!(doc.get(p1).first_child, None);
    assert_eq!(doc.get(p2).first_child, Some(child));
}

#[test]
fn test_clone_node_shallow() {
    let mut doc = Document::new();
    let div = doc.create_element("div");
    let child = doc.create_text("hello");
    doc.append_child(div, child);

    let cloned = doc.clone_node(div, false);
    assert_eq!(doc.get(cloned).first_child, None); // shallow — no children
    if let NodeKind::Element(ref el) = doc.get(cloned).kind {
        assert_eq!(el.tag.as_str(), "div");
    }
}

#[test]
fn test_clone_node_deep() {
    let mut doc = Document::new();
    let div = doc.create_element("div");
    let child = doc.create_text("hello");
    doc.append_child(div, child);

    let cloned = doc.clone_node(div, true);
    assert!(doc.get(cloned).first_child.is_some());
    let cc = doc.get(cloned).first_child.unwrap();
    if let NodeKind::Text(ref t) = doc.get(cc).kind {
        assert_eq!(t.as_str(), "hello");
    }
}

#[test]
fn test_remove_and_free() {
    let mut doc = Document::new();
    let parent = doc.create_element("div");
    let child = doc.create_element("span");
    let grandchild = doc.create_text("hi");
    doc.append_child(doc.root, parent);
    doc.append_child(parent, child);
    doc.append_child(child, grandchild);

    doc.remove_and_free(parent);
    assert!(doc.nodes[parent.0].freed);
    assert!(doc.nodes[child.0].freed);
    assert!(doc.nodes[grandchild.0].freed);
    assert_eq!(doc.free_list.len(), 3);
}

#[test]
fn test_clone_node_deep_copies_grandchildren() {
    let mut doc = Document::new();
    let div = doc.create_element("div");
    doc.set_attribute(div, "data-k", "v");
    let ul = doc.create_element("ul");
    let li = doc.create_element("li");
    let txt = doc.create_text("item");
    doc.append_child(div, ul);
    doc.append_child(ul, li);
    doc.append_child(li, txt);
    let before = doc.outer_html(div);
    let cloned = doc.clone_node(div, true);
    assert_ne!(cloned, div);
    assert_eq!(doc.outer_html(cloned), before);
    assert_eq!(doc.outer_html(div), before);
    let shallow = doc.clone_node(div, false);
    assert_eq!(doc.outer_html(shallow).as_str(), "<div data-k=\"v\"></div>");
}

#[test]
fn test_set_text_content_frees_old_children() {
    let mut doc = Document::new();
    let div = doc.create_element("div");
    let a = doc.create_element("a");
    let b = doc.create_text("b");
    doc.append_child(div, a);
    doc.append_child(a, b);
    doc.set_text_content(div, "t");
    // Freed in post order (b, then a); the new text node takes the last freed slot.
    assert!(doc.nodes[b.0].freed);
    assert!(!doc.nodes[div.0].freed);
    assert_eq!(doc.children(div), vec![a]);
    assert_eq!(doc.free_list, vec![b.0]);
    assert_eq!(doc.text_content(div).as_str(), "t");
}

#[test]
fn test_remove_and_free_frees_subtree_post_order() {
    let mut doc = Document::new();
    let div = doc.create_element("div");
    let p = doc.create_element("p");
    let span = doc.create_element("span");
    doc.set_attribute(span, "id", "inner");
    doc.append_child(doc.root, div);
    doc.append_child(div, p);
    doc.append_child(p, span);
    assert_eq!(doc.get_element_by_id("inner"), Some(span));
    doc.remove_and_free(div);
    assert!(doc.nodes[div.0].freed && doc.nodes[p.0].freed && doc.nodes[span.0].freed);
    assert_eq!(doc.free_list, vec![span.0, p.0, div.0]);
    assert_eq!(doc.get_element_by_id("inner"), None);
    assert_eq!(doc.children(doc.root).len(), 0);
}
