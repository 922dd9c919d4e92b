use volki_web::dom::Document;

#[test]
fn test_outer_html_simple() {
    let mut doc = Document::new();
    let div = doc.create_element("div");
    doc.set_attribute(div, "class", "box");
    let txt = doc.create_text("hello");
    doc.append_child(div, txt);

    assert_eq!(doc.outer_html(div).as_str(), "<div class=\"box\">hello</div>");
}

#[test]
fn test_inner_html() {
    let mut doc = Document::new();
    let div = doc.create_element("div");
    let span = doc.create_element("span");
    let txt = doc.create_text("hi");
    doc.append_child(div, span);
    doc.append_child(span, txt);

    assert_eq!(doc.inner_html(div).as_str(), "<span>hi</span>");
}

#[test]
fn test_outer_html_void() {
    let mut doc = Document::new();
    let br = doc.create_element_void("br");
    assert_eq!(doc.outer_html(br).as_str(), "<br>");
}

#[test]
fn test_outer_html_nested() {
    let mut doc = Document::new();
    let ul = doc.create_element("ul");
    let li1 = doc.create_element("li");
    let li2 = doc.create_element("li");
    let t1 = doc.create_text("one");
    let t2 = doc.create_text("two");
    doc.append_child(ul, li1);
    doc.append_child(ul, li2);
    doc.append_child(li1, t1);
    doc.append_child(li2, t2);

    assert_eq!(doc.outer_html(ul).as_str(), "<ul><li>one</li><li>two</li></ul>");
}

#[test]
fn test_text_escaping() {
    let mut doc = Document::new();
    let p = doc.create_element("p");
    let txt = doc.create_text("<script>alert('xss')</script>");
    doc.append_child(p, txt);

    let html = doc.outer_html(p);
    assert!(html.as_str().contains("&lt;script&gt;"));
}

#[test]
fn test_attr_escaping() {
    let mut doc = Document::new();
    let div = doc.create_element("div");
    doc.set_attribute(div, "data-val", "a\"b");

    let html = doc.outer_html(div);
    assert_eq!(html.as_str(), "<div data-val=\"a&quot;b\"></div>");
}

#[test]
fn test_comment_serialization() {
    let mut doc = Document::new();
    let c = doc.create_comment(" a comment ");
    assert_eq!(doc.outer_html(c).as_str(), "<!-- a comment -->");
}

#[test]
fn test_render_document() {
    let doc = Document::new_html();
    let html = doc.render_document();
    assert!(html.as_str().contains("<!DOCTYPE html>"));
    assert!(html.as_str().contains("<html>"));
    assert!(html.as_str().contains("<head></head>"));
    assert!(html.as_str().contains("<body></body>"));
    assert!(html.as_str().contains("</html>"));
}

#[test]
fn test_inner_html_is_children_outer_html() {
    let mut doc = Document::new();
    let div = doc.create_element("div");
    let p = doc.create_element("p");
    let t = doc.create_text("a<b");
    let br = doc.create_element_void("br");
    doc.append_child(div, p);
    doc.append_child(p, t);
    doc.append_child(div, br);
    let joined = format!("{}{}", doc.outer_html(p).as_str(), doc.outer_html(br).as_str());
    assert_eq!(doc.inner_html(div).as_str(), joined.as_str());
    assert_eq!(joined.as_str(), "<p>a&lt;b</p><br>");
}
