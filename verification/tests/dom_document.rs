use volki_web::dom::Document;
use volki_web::dom::node::{NodeKind, NodeType};

#[test]
fn test_new_document() {
    let doc = Document::new();
    assert_eq!(doc.nodes.len(), 1);
    assert_eq!(doc.get(doc.root).node_type(), NodeType::Document);
}

#[test]
fn test_new_html() {
    let doc = Document::new_html();
    assert!(doc.document_element().is_some());
    assert!(doc.head().is_some());
    assert!(doc.body().is_some());
}

#[test]
fn test_create_element() {
    let mut doc = Document::new();
    let div = doc.create_element("div");
    assert_eq!(doc.get(div).node_type(), NodeType::Element);
    if let NodeKind::Element(ref el) = doc.get(div).kind {
        assert_eq!(el.tag.as_str(), "div");
        assert!(!el.self_closing);
    } else {
        panic!("Expected Element");
    }
}

#[test]
fn test_create_element_void() {
    let mut doc = Document::new();
    let br = doc.create_element_void("br");
    if let NodeKind::Element(ref el) = doc.get(br).kind {
        assert!(el.self_closing);
    } else {
        panic!("Expected Element");
    }
}

#[test]
fn test_create_text() {
    let mut doc = Document::new();
    let txt = doc.create_text("hello");
    assert_eq!(doc.get(txt).node_type(), NodeType::Text);
    if let NodeKind::Text(ref s) = doc.get(txt).kind {
        assert_eq!(s.as_str(), "hello");
    } else {
        panic!("Expected Text");
    }
}

#[test]
fn test_create_comment() {
    let mut doc = Document::new();
    let c = doc.create_comment("a comment");
    assert_eq!(doc.get(c).node_type(), NodeType::Comment);
}

#[test]
fn test_create_document_fragment() {
    let mut doc = Document::new();
    let f = doc.create_document_fragment();
    assert_eq!(doc.get(f).node_type(), NodeType::DocumentFragment);
}

#[test]
fn test_free_list_reuse() {
    let mut doc = Document::new();
    let a = doc.create_element("a");
    let b = doc.create_element("b");
    let len_before = doc.nodes.len();
    // Free slot for 'b'
    doc.nodes[b.0].freed = true;
    doc.free_list.push(b.0);
    // Allocate again — should reuse b's slot
    let c = doc.create_element("c");
    assert_eq!(c.0, b.0);
    assert_eq!(doc.nodes.len(), len_before);
    let _ = a; // suppress unused
}
