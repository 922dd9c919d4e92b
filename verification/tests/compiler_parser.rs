use std::path::PathBuf;
use volki_web::compiler::tokenizer;
use volki_web::compiler::parser::{parse, RsxAttrValue, RsxNode};

fn parse_rsx(src: &str) -> Vec<RsxNode> {
    let file = PathBuf::from("<test>");
    let tokens = tokenizer::tokenize(src, file.clone()).unwrap();
    parse(&tokens, file).unwrap()
}

#[test]
fn test_parse_element_with_children() {
    let nodes = parse_rsx(r#"<div class="outer"><span>"inner"</span></div>"#);
    assert_eq!(nodes.len(), 1);
    match &nodes[0] {
        RsxNode::Element { tag, attrs, children, self_closing } => {
            assert_eq!(tag.as_str(), "div");
            assert_eq!(attrs.len(), 1);
            assert_eq!(attrs[0].name.as_str(), "class");
            assert_eq!(attrs[0].value, RsxAttrValue::Literal(String::from("outer")));
            assert!(!self_closing);
            assert_eq!(children.len(), 1);
            match &children[0] {
                RsxNode::Element { tag, children, .. } => {
                    assert_eq!(tag.as_str(), "span");
                    assert_eq!(children.len(), 1);
                    assert_eq!(children[0], RsxNode::Text(String::from("inner")));
                }
                _ => panic!("expected element"),
            }
        }
        _ => panic!("expected element"),
    }
}

#[test]
fn test_parse_self_closing() {
    let nodes = parse_rsx(r#"<input type="text" />"#);
    assert_eq!(nodes.len(), 1);
    match &nodes[0] {
        RsxNode::Element { tag, attrs, self_closing, .. } => {
            assert_eq!(tag.as_str(), "input");
            assert_eq!(attrs.len(), 1);
            assert_eq!(attrs[0].name.as_str(), "type");
            assert_eq!(attrs[0].value, RsxAttrValue::Literal(String::from("text")));
            assert!(self_closing);
        }
        _ => panic!("expected element"),
    }
}

#[test]
fn test_parse_attribute_expr_value() {
    let nodes = parse_rsx(r#"<button onclick={on_click}>"go"</button>"#);
    assert_eq!(nodes.len(), 1);
    match &nodes[0] {
        RsxNode::Element { attrs, .. } => {
            assert_eq!(attrs.len(), 1);
            assert_eq!(attrs[0].name.as_str(), "onclick");
            assert_eq!(attrs[0].value, RsxAttrValue::Expr(String::from("on_click")));
        }
        _ => panic!("expected element"),
    }
}

#[test]
fn test_parse_mixed_children() {
    let nodes = parse_rsx(r#"<div>"hello"{content()}<span>"world"</span></div>"#);
    assert_eq!(nodes.len(), 1);
    match &nodes[0] {
        RsxNode::Element { children, .. } => {
            assert_eq!(children.len(), 3);
            assert_eq!(children[0], RsxNode::Text(String::from("hello")));
            assert_eq!(children[1], RsxNode::Expr(String::from("content()")));
            match &children[2] {
                RsxNode::Element { tag, .. } => assert_eq!(tag.as_str(), "span"),
                _ => panic!("expected element"),
            }
        }
        _ => panic!("expected element"),
    }
}

#[test]
fn test_parse_multiple_top_level() {
    let nodes = parse_rsx(r#"<div>"one"</div><span>"two"</span>"#);
    assert_eq!(nodes.len(), 2);
    match &nodes[0] {
        RsxNode::Element { tag, .. } => assert_eq!(tag.as_str(), "div"),
        _ => panic!("expected div"),
    }
    match &nodes[1] {
        RsxNode::Element { tag, .. } => assert_eq!(tag.as_str(), "span"),
        _ => panic!("expected span"),
    }
}

#[test]
fn test_parse_expression_child() {
    let nodes = parse_rsx(r#"<div>{sidebar_content()}</div>"#);
    assert_eq!(nodes.len(), 1);
    match &nodes[0] {
        RsxNode::Element { children, .. } => {
            assert_eq!(children.len(), 1);
            assert_eq!(children[0], RsxNode::Expr(String::from("sidebar_content()")));
        }
        _ => panic!("expected element"),
    }
}

// ── Conditional rendering tests ──

#[test]
fn test_parse_cond_and_element() {
    let nodes = parse_rsx(r#"<div>{is_admin && <span>"Admin"</span>}</div>"#);
    assert_eq!(nodes.len(), 1);
    match &nodes[0] {
        RsxNode::Element { children, .. } => {
            assert_eq!(children.len(), 1);
            match &children[0] {
                RsxNode::CondAnd { condition, body } => {
                    assert_eq!(condition.as_str(), "is_admin");
                    assert_eq!(body.len(), 1);
                    match &body[0] {
                        RsxNode::Element { tag, children, .. } => {
                            assert_eq!(tag.as_str(), "span");
                            assert_eq!(children.len(), 1);
                            assert_eq!(children[0], RsxNode::Text(String::from("Admin")));
                        }
                        _ => panic!("expected element in body"),
                    }
                }
                _ => panic!("expected CondAnd"),
            }
        }
        _ => panic!("expected element"),
    }
}

#[test]
fn test_parse_cond_and_text() {
    let nodes = parse_rsx(r#"<div>{show && "visible text"}</div>"#);
    assert_eq!(nodes.len(), 1);
    match &nodes[0] {
        RsxNode::Element { children, .. } => {
            assert_eq!(children.len(), 1);
            match &children[0] {
                RsxNode::CondAnd { condition, body } => {
                    assert_eq!(condition.as_str(), "show");
                    assert_eq!(body.len(), 1);
                    assert_eq!(body[0], RsxNode::Text(String::from("visible text")));
                }
                _ => panic!("expected CondAnd"),
            }
        }
        _ => panic!("expected element"),
    }
}

#[test]
fn test_parse_ternary() {
    let nodes = parse_rsx(
        r#"<div>{flag ? <span>"yes"</span> : <span>"no"</span>}</div>"#,
    );
    assert_eq!(nodes.len(), 1);
    match &nodes[0] {
        RsxNode::Element { children, .. } => {
            assert_eq!(children.len(), 1);
            match &children[0] {
                RsxNode::Ternary { condition, if_true, if_false } => {
                    assert_eq!(condition.as_str(), "flag");
                    assert_eq!(if_true.len(), 1);
                    assert_eq!(if_false.len(), 1);
                    match &if_true[0] {
                        RsxNode::Element { tag, children, .. } => {
                            assert_eq!(tag.as_str(), "span");
                            assert_eq!(children[0], RsxNode::Text(String::from("yes")));
                        }
                        _ => panic!("expected element in if_true"),
                    }
                    match &if_false[0] {
                        RsxNode::Element { tag, children, .. } => {
                            assert_eq!(tag.as_str(), "span");
                            assert_eq!(children[0], RsxNode::Text(String::from("no")));
                        }
                        _ => panic!("expected element in if_false"),
                    }
                }
                _ => panic!("expected Ternary"),
            }
        }
        _ => panic!("expected element"),
    }
}

#[test]
fn test_parse_complex_condition_and() {
    // Multiple && where only the last one precedes JSX
    let nodes = parse_rsx(r#"<div>{x > 0 && items.len() > 0 && <br />}</div>"#);
    assert_eq!(nodes.len(), 1);
    match &nodes[0] {
        RsxNode::Element { children, .. } => {
            assert_eq!(children.len(), 1);
            match &children[0] {
                RsxNode::CondAnd { condition, body } => {
                    assert_eq!(condition.as_str(), "x > 0 && items.len() > 0");
                    assert_eq!(body.len(), 1);
                    match &body[0] {
                        RsxNode::Element { tag, self_closing, .. } => {
                            assert_eq!(tag.as_str(), "br");
                            assert!(self_closing);
                        }
                        _ => panic!("expected self-closing element"),
                    }
                }
                _ => panic!("expected CondAnd"),
            }
        }
        _ => panic!("expected element"),
    }
}

#[test]
fn test_parse_non_jsx_and_stays_expr() {
    // {a && b} with no JSX → stays as Expr
    let nodes = parse_rsx(r#"<div>{a && b}</div>"#);
    assert_eq!(nodes.len(), 1);
    match &nodes[0] {
        RsxNode::Element { children, .. } => {
            assert_eq!(children.len(), 1);
            assert_eq!(children[0], RsxNode::Expr(String::from("a && b")));
        }
        _ => panic!("expected element"),
    }
}

#[test]
fn test_parse_plain_expr_unchanged() {
    let nodes = parse_rsx(r#"<div>{sidebar_content()}</div>"#);
    assert_eq!(nodes.len(), 1);
    match &nodes[0] {
        RsxNode::Element { children, .. } => {
            assert_eq!(children.len(), 1);
            assert_eq!(children[0], RsxNode::Expr(String::from("sidebar_content()")));
        }
        _ => panic!("expected element"),
    }
}

#[test]
fn test_parse_nested_conditional() {
    // {a && <div>{b ? <x /> : <y />}</div>}
    let nodes = parse_rsx(
        r#"<div>{a && <div>{b ? <x /> : <y />}</div>}</div>"#,
    );
    assert_eq!(nodes.len(), 1);
    match &nodes[0] {
        RsxNode::Element { children, .. } => {
            assert_eq!(children.len(), 1);
            match &children[0] {
                RsxNode::CondAnd { condition, body } => {
                    assert_eq!(condition.as_str(), "a");
                    assert_eq!(body.len(), 1);
                    match &body[0] {
                        RsxNode::Element { tag, children, .. } => {
                            assert_eq!(tag.as_str(), "div");
                            assert_eq!(children.len(), 1);
                            match &children[0] {
                                RsxNode::Ternary { condition, if_true, if_false } => {
                                    assert_eq!(condition.as_str(), "b");
                                    assert_eq!(if_true.len(), 1);
                                    assert_eq!(if_false.len(), 1);
                                }
                                _ => panic!("expected Ternary inside nested div"),
                            }
                        }
                        _ => panic!("expected div element in CondAnd body"),
                    }
                }
                _ => panic!("expected CondAnd"),
            }
        }
        _ => panic!("expected element"),
    }
}

#[test]
fn test_parse_ternary_self_closing() {
    let nodes = parse_rsx(r#"{active ? <div /> : <span />}"#);
    assert_eq!(nodes.len(), 1);
    match &nodes[0] {
        RsxNode::Ternary { condition, if_true, if_false } => {
            assert_eq!(condition.as_str(), "active");
            assert_eq!(if_true.len(), 1);
            assert_eq!(if_false.len(), 1);
            match &if_true[0] {
                RsxNode::Element { tag, self_closing, .. } => {
                    assert_eq!(tag.as_str(), "div");
                    assert!(self_closing);
                }
                _ => panic!("expected div"),
            }
            match &if_false[0] {
                RsxNode::Element { tag, self_closing, .. } => {
                    assert_eq!(tag.as_str(), "span");
                    assert!(self_closing);
                }
                _ => panic!("expected span"),
            }
        }
        _ => panic!("expected Ternary"),
    }
}

#[test]
fn test_parse_ternary_text_branches() {
    let nodes = parse_rsx(r#"{ok ? "yes" : "no"}"#);
    assert_eq!(nodes.len(), 1);
    match &nodes[0] {
        RsxNode::Ternary { condition, if_true, if_false } => {
            assert_eq!(condition.as_str(), "ok");
            assert_eq!(if_true.len(), 1);
            assert_eq!(if_false.len(), 1);
            assert_eq!(if_true[0], RsxNode::Text(String::from("yes")));
            assert_eq!(if_false[0], RsxNode::Text(String::from("no")));
        }
        _ => panic!("expected Ternary"),
    }
}

#[test]
fn test_parse_invalid_ternary_missing_colon_errors() {
    let file = PathBuf::from("<test>");
    let tokens = tokenizer::tokenize(r#"{ok ? <div />}"#, file.clone()).unwrap();
    let result = parse(&tokens, file);
    assert!(result.is_err());
    let err = result.unwrap_err();
    assert!(err.message.as_str().contains("ternary"));
}

#[test]
fn test_parse_invalid_conditional_and_errors() {
    let file = PathBuf::from("<test>");
    let tokens = tokenizer::tokenize(r#"{flag &&}"#, file.clone()).unwrap();
    let result = parse(&tokens, file);
    assert!(result.is_err());
    let err = result.unwrap_err();
    assert!(err.message.as_str().contains("conditional"));
}
