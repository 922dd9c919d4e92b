use volki_web::dom::Document;
use volki_web::dom::node::NodeKind;
use volki_web::dom::parse::decode_entities;

#[test]
fn test_parse_simple() {
    let mut doc = Document::new();
    let parent = doc.create_element("div");
    doc.parse_html_fragment(parent, "<p>Hello</p>");

    let p = doc.first_child(parent).unwrap();
    assert_eq!(doc.tag_name(p), Some("p"));
    assert_eq!(doc.text_content(p).as_str(), "Hello");
}

#[test]
fn test_parse_nested() {
    let mut doc = Document::new();
    let parent = doc.create_element("div");
    doc.parse_html_fragment(parent, "<ul><li>one</li><li>two</li></ul>");

    let ul = doc.first_child(parent).unwrap();
    assert_eq!(doc.tag_name(ul), Some("ul"));
    assert_eq!(doc.children_count(ul), 2);
}

#[test]
fn test_parse_void() {
    let mut doc = Document::new();
    let parent = doc.create_element("div");
    doc.parse_html_fragment(parent, "<br><hr>");

    assert_eq!(doc.children_count(parent), 2);
    let br = doc.first_child(parent).unwrap();
    if let NodeKind::Element(ref el) = doc.get(br).kind {
        assert!(el.self_closing);
    }
}

#[test]
fn test_parse_attributes() {
    let mut doc = Document::new();
    let parent = doc.create_element("div");
    doc.parse_html_fragment(parent, "<a href=\"/about\" class=\"link\">About</a>");

    let a = doc.first_child(parent).unwrap();
    assert_eq!(doc.get_attribute(a, "href"), Some("/about"));
    assert_eq!(doc.get_attribute(a, "class"), Some("link"));
    assert!(doc.class_list_contains(a, "link"));
}

#[test]
fn test_parse_comment() {
    let mut doc = Document::new();
    let parent = doc.create_element("div");
    doc.parse_html_fragment(parent, "<!-- a comment --><p>hi</p>");

    let comment = doc.first_child(parent).unwrap();
    if let NodeKind::Comment(ref c) = doc.get(comment).kind {
        assert_eq!(c.as_str(), " a comment ");
    } else {
        panic!("Expected Comment");
    }
}

#[test]
fn test_set_inner_html() {
    let mut doc = Document::new();
    let div = doc.create_element("div");
    let old = doc.create_text("old");
    doc.append_child(div, old);

    doc.set_inner_html(div, "<p>new</p>");
    assert_eq!(doc.inner_html(div).as_str(), "<p>new</p>");
}

#[test]
fn test_decode_entities() {
    assert_eq!(decode_entities("&amp;").as_str(), "&");
    assert_eq!(decode_entities("&lt;b&gt;").as_str(), "<b>");
    assert_eq!(decode_entities("&quot;hi&quot;").as_str(), "\"hi\"");
    assert_eq!(decode_entities("no entities").as_str(), "no entities");
}

#[test]
fn test_parse_self_closing_slash() {
    let mut doc = Document::new();
    let parent = doc.create_element("div");
    doc.parse_html_fragment(parent, "<img src=\"a.png\" />");

    let img = doc.first_child(parent).unwrap();
    assert_eq!(doc.tag_name(img), Some("img"));
    assert_eq!(doc.get_attribute(img, "src"), Some("a.png"));
}

#[test]
fn test_parse_id_indexed() {
    let mut doc = Document::new();
    let parent = doc.create_element("div");
    doc.parse_html_fragment(parent, "<div id=\"app\">content</div>");

    assert!(doc.get_element_by_id("app").is_some());
}

#[test]
fn test_parse_top_level_items_in_order() {
    let mut doc = Document::new();
    let parent = doc.create_element("div");
    let old = doc.create_text("old");
    doc.append_child(parent, old);
    doc.parse_html_fragment(parent, "a &amp; b<br/><!-- c --><span class=\"x\">s</span></em>t");
    let kids = doc.children(parent);
    assert_eq!(kids.len(), 6);
    assert_eq!(kids[0], old);
    assert_eq!(doc.text_content(kids[1]).as_str(), "a & b");
    assert_eq!(doc.tag_name(kids[2]), Some("br"));
    assert!(matches!(doc.get(kids[3]).kind, NodeKind::Comment(ref c) if c.as_str() == " c "));
    assert_eq!(doc.tag_name(kids[4]), Some("span"));
    assert_eq!(doc.get_attribute(kids[4], "class"), Some("x"));
    assert_eq!(doc.text_content(kids[5]).as_str(), "t");
}

#[test]
fn test_set_inner_html_replaces_items() {
    let mut doc = Document::new();
    let div = doc.create_element("div");
    doc.set_inner_html(div, "<p>one</p>two");
    doc.set_inner_html(div, "<b>x</b><i>y</i>");
    let kids = doc.children(div);
    assert_eq!(kids.len(), 2);
    assert_eq!(doc.tag_name(kids[0]), Some("b"));
    assert_eq!(doc.tag_name(kids[1]), Some("i"));
    doc.set_inner_html(div, "");
    assert_eq!(doc.children(div).len(), 0);
}
