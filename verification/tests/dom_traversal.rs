use volki_web::dom::Document;

#[test]
fn test_children_iter() {
    let mut doc = Document::new();
    let parent = doc.create_element("div");
    let c1 = doc.create_element("a");
    let c2 = doc.create_element("b");
    let c3 = doc.create_element("c");
    doc.append_child(parent, c1);
    doc.append_child(parent, c2);
    doc.append_child(parent, c3);

    let ids: Vec<_> = doc.children(parent);
    assert_eq!(ids.len(), 3);
    assert_eq!(ids[0], c1);
    assert_eq!(ids[1], c2);
    assert_eq!(ids[2], c3);
}

#[test]
fn test_descendants_iter() {
    let mut doc = Document::new();
    let div = doc.create_element("div");
    let span = doc.create_element("span");
    let txt = doc.create_text("hi");
    let p = doc.create_element("p");
    doc.append_child(div, span);
    doc.append_child(span, txt);
    doc.append_child(div, p);

    let ids: Vec<_> = doc.descendants(div);
    assert_eq!(ids.len(), 3);
    assert_eq!(ids[0], span);
    assert_eq!(ids[1], txt);
    assert_eq!(ids[2], p);
}

#[test]
fn test_ancestor_iter() {
    let mut doc = Document::new();
    let div = doc.create_element("div");
    let span = doc.create_element("span");
    let txt = doc.create_text("hi");
    doc.append_child(doc.root, div);
    doc.append_child(div, span);
    doc.append_child(span, txt);

    let ancestors: Vec<_> = doc.ancestors(txt);
    assert_eq!(ancestors.len(), 3);
    assert_eq!(ancestors[0], span);
    assert_eq!(ancestors[1], div);
    assert_eq!(ancestors[2], doc.root);
}

#[test]
fn test_children_count() {
    let mut doc = Document::new();
    let parent = doc.create_element("div");
    let a = doc.create_element("a");
    let b = doc.create_element("b");
    doc.append_child(parent, a);
    doc.append_child(parent, b);
    assert_eq!(doc.children_count(parent), 2);
}

#[test]
fn test_nth_child() {
    let mut doc = Document::new();
    let parent = doc.create_element("ul");
    let li0 = doc.create_element("li");
    let li1 = doc.create_element("li");
    doc.append_child(parent, li0);
    doc.append_child(parent, li1);

    assert_eq!(doc.nth_child(parent, 0), Some(li0));
    assert_eq!(doc.nth_child(parent, 1), Some(li1));
    assert_eq!(doc.nth_child(parent, 2), None);
}


#[test]
fn test_navigation() {
    let mut doc = Document::new();
    let parent = doc.create_element("div");
    let c1 = doc.create_element("a");
    let c2 = doc.create_element("b");
    doc.append_child(parent, c1);
    doc.append_child(parent, c2);

    assert_eq!(doc.first_child(parent), Some(c1));
    assert_eq!(doc.last_child(parent), Some(c2));
    assert_eq!(doc.next_sibling(c1), Some(c2));
    assert_eq!(doc.prev_sibling(c2), Some(c1));
    assert_eq!(doc.parent(c1), Some(parent));
}
