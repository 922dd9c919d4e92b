use volki_web::dom::Document;
use volki_web::dom::selector::{parse_selector, Combinator};

#[test]
fn test_parse_tag() {
    let sel = parse_selector("div").unwrap();
    assert_eq!(sel.selectors.len(), 1);
}

#[test]
fn test_parse_class() {
    let sel = parse_selector(".foo").unwrap();
    assert_eq!(sel.selectors.len(), 1);
}

#[test]
fn test_parse_id() {
    let sel = parse_selector("#main").unwrap();
    assert_eq!(sel.selectors.len(), 1);
}

#[test]
fn test_parse_compound() {
    let sel = parse_selector("div.foo#bar").unwrap();
    assert_eq!(sel.selectors[0].parts[0].1.parts.len(), 3);
}

#[test]
fn test_parse_descendant() {
    let sel = parse_selector("div span").unwrap();
    assert_eq!(sel.selectors[0].parts.len(), 2);
}

#[test]
fn test_parse_child() {
    let sel = parse_selector("div > span").unwrap();
    assert_eq!(sel.selectors[0].parts.len(), 2);
    assert_eq!(sel.selectors[0].parts[1].0, Combinator::Child);
}

#[test]
fn test_parse_comma() {
    let sel = parse_selector("div, span").unwrap();
    assert_eq!(sel.selectors.len(), 2);
}

#[test]
fn test_parse_attr() {
    let sel = parse_selector("[data-x]").unwrap();
    assert_eq!(sel.selectors.len(), 1);
}

#[test]
fn test_parse_attr_eq() {
    let sel = parse_selector("[data-x=\"hello\"]").unwrap();
    assert_eq!(sel.selectors.len(), 1);
}

#[test]
fn test_parse_nth_child() {
    let sel = parse_selector(":nth-child(2n+1)").unwrap();
    assert_eq!(sel.selectors.len(), 1);
}

#[test]
fn test_parse_not() {
    let sel = parse_selector(":not(.hidden)").unwrap();
    assert_eq!(sel.selectors.len(), 1);
}

#[test]
fn test_match_tag() {
    let mut doc = Document::new();
    let div = doc.create_element("div");
    let sel = parse_selector("div").unwrap();
    assert!(doc.matches_selector(div, &sel));

    let span = doc.create_element("span");
    assert!(!doc.matches_selector(span, &sel));
}

#[test]
fn test_match_class() {
    let mut doc = Document::new();
    let div = doc.create_element("div");
    doc.class_list_add(div, "foo");
    let sel = parse_selector(".foo").unwrap();
    assert!(doc.matches_selector(div, &sel));
}

#[test]
fn test_match_id() {
    let mut doc = Document::new();
    let div = doc.create_element("div");
    doc.set_attribute(div, "id", "main");
    let sel = parse_selector("#main").unwrap();
    assert!(doc.matches_selector(div, &sel));
}

#[test]
fn test_match_descendant() {
    let mut doc = Document::new();
    let div = doc.create_element("div");
    let span = doc.create_element("span");
    doc.append_child(doc.root, div);
    doc.append_child(div, span);

    let sel = parse_selector("div span").unwrap();
    assert!(doc.matches_selector(span, &sel));
    assert!(!doc.matches_selector(div, &sel));
}

#[test]
fn test_match_child_combinator() {
    let mut doc = Document::new();
    let div = doc.create_element("div");
    let p = doc.create_element("p");
    let span = doc.create_element("span");
    doc.append_child(doc.root, div);
    doc.append_child(div, p);
    doc.append_child(p, span);

    let sel = parse_selector("div > p").unwrap();
    assert!(doc.matches_selector(p, &sel));

    // span is not a direct child of div
    let sel2 = parse_selector("div > span").unwrap();
    assert!(!doc.matches_selector(span, &sel2));
}

#[test]
fn test_match_first_child() {
    let mut doc = Document::new();
    let ul = doc.create_element("ul");
    let li1 = doc.create_element("li");
    let li2 = doc.create_element("li");
    doc.append_child(ul, li1);
    doc.append_child(ul, li2);

    let sel = parse_selector(":first-child").unwrap();
    assert!(doc.matches_selector(li1, &sel));
    assert!(!doc.matches_selector(li2, &sel));
}

#[test]
fn test_match_not() {
    let mut doc = Document::new();
    let div = doc.create_element("div");
    doc.class_list_add(div, "visible");

    let sel = parse_selector(":not(.hidden)").unwrap();
    assert!(doc.matches_selector(div, &sel));

    doc.class_list_add(div, "hidden");
    // Re-parse because class was added
    let sel2 = parse_selector(":not(.hidden)").unwrap();
    assert!(!doc.matches_selector(div, &sel2));
}
