use std::path::PathBuf;
use volki_web::compiler::tokenizer::{tokenize, Token};

fn tok(src: &str) -> Vec<Token> {
    tokenize(src, PathBuf::from("<test>")).unwrap()
}

#[test]
fn test_tokenize_simple_element() {
    let tokens = tok(r#"<div class="foo">"hello"</div>"#);
    assert_eq!(tokens, vec![
        Token::OpenTag(String::from("div")),
        Token::AttrName(String::from("class")),
        Token::AttrEquals,
        Token::AttrValue(String::from("foo")),
        Token::TagEnd,
        Token::TextLiteral(String::from("hello")),
        Token::CloseTag(String::from("div")),
    ]);
}

#[test]
fn test_tokenize_self_closing() {
    let tokens = tok(r#"<br />"#);
    assert_eq!(tokens, vec![
        Token::OpenTag(String::from("br")),
        Token::SelfCloseEnd,
    ]);
}

#[test]
fn test_tokenize_expression() {
    let tokens = tok(r#"{sidebar_content()}"#);
    assert_eq!(tokens, vec![
        Token::Expression(String::from("sidebar_content()")),
    ]);
}

#[test]
fn test_tokenize_nested_braces() {
    let tokens = tok(r#"{vec![1, 2, 3]}"#);
    assert_eq!(tokens, vec![
        Token::Expression(String::from("vec![1, 2, 3]")),
    ]);
}

#[test]
fn test_tokenize_text_literal() {
    let tokens = tok(r#""hello world""#);
    assert_eq!(tokens, vec![
        Token::TextLiteral(String::from("hello world")),
    ]);
}

#[test]
fn test_tokenize_multiple_attrs() {
    let tokens = tok(r#"<input type="text" name="user" />"#);
    assert_eq!(tokens, vec![
        Token::OpenTag(String::from("input")),
        Token::AttrName(String::from("type")),
        Token::AttrEquals,
        Token::AttrValue(String::from("text")),
        Token::AttrName(String::from("name")),
        Token::AttrEquals,
        Token::AttrValue(String::from("user")),
        Token::SelfCloseEnd,
    ]);
}

#[test]
fn test_tokenize_attr_expression() {
    let tokens = tok(r#"<button onclick={on_click}>"ok"</button>"#);
    assert_eq!(tokens, vec![
        Token::OpenTag(String::from("button")),
        Token::AttrName(String::from("onclick")),
        Token::AttrEquals,
        Token::AttrExpr(String::from("on_click")),
        Token::TagEnd,
        Token::TextLiteral(String::from("ok")),
        Token::CloseTag(String::from("button")),
    ]);
}

#[test]
fn test_tokenize_nested_elements() {
    let tokens = tok(r#"<div><span>"hi"</span></div>"#);
    assert_eq!(tokens, vec![
        Token::OpenTag(String::from("div")),
        Token::TagEnd,
        Token::OpenTag(String::from("span")),
        Token::TagEnd,
        Token::TextLiteral(String::from("hi")),
        Token::CloseTag(String::from("span")),
        Token::CloseTag(String::from("div")),
    ]);
}

#[test]
fn test_tokenize_expression_in_element() {
    let tokens = tok(r#"<div>{content()}</div>"#);
    assert_eq!(tokens, vec![
        Token::OpenTag(String::from("div")),
        Token::TagEnd,
        Token::Expression(String::from("content()")),
        Token::CloseTag(String::from("div")),
    ]);
}
