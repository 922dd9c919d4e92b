use volki_web::compiler::minify::{minify_js_generated, minify_route_mod_generated, minify_rust_generated};

#[test]
fn rust_minify_removes_comments_and_newlines() {
    let src = "fn a() {\n// comment\nlet x = 1; /* b */ let y = \"a b\";\n}\n";
    let out = minify_rust_generated(src).unwrap();
    assert!(!out.contains("comment"));
    assert!(out.contains("let y = \"a b\";"));
}

#[test]
fn rust_minify_preserves_raw_string() {
    let src = "let s = r#\"a // not comment\\n\"#; // c\n";
    let out = minify_rust_generated(src).unwrap();
    assert!(out.contains("r#\"a // not comment\\n\"#;"));
    assert!(!out.ends_with("// c"));
}

#[test]
fn js_minify_preserves_template_literal() {
    let src = "const a = `x ${b}`; // c\n";
    let out = minify_js_generated(src).unwrap();
    assert!(out.contains("`x ${b}`;"));
    assert!(!out.contains("// c"));
}

#[test]
fn rust_minify_collapses_whitespace_exactly() {
    let out = minify_rust_generated("  fn  a()\n\t{ x }  ").unwrap();
    assert_eq!(out.as_str(), "fn a() { x }");
}

#[test]
fn rust_minify_nested_block_comment() {
    let out = minify_rust_generated("a /* x /* y */ z */ b").unwrap();
    assert_eq!(out.as_str(), "a b");
}

#[test]
fn rust_minify_unterminated_block_comment() {
    let err = minify_rust_generated("a\n/* x").unwrap_err();
    assert_eq!(err.kind, "unterminated block comment");
    assert_eq!(err.offset, 5);
    assert_eq!(err.line, 2);
    assert_eq!(err.col, 4);
}

#[test]
fn rust_minify_unterminated_raw_string() {
    let err = minify_rust_generated("let s = r#\"abc\";").unwrap_err();
    assert_eq!(err.kind, "unterminated raw string");
    assert_eq!(err.offset, 15);
}

#[test]
fn rust_minify_unterminated_string_and_escape() {
    let err = minify_rust_generated("x = \"abc").unwrap_err();
    assert_eq!(err.kind, "unterminated string");
    let err = minify_rust_generated("x = \"ab\\").unwrap_err();
    assert_eq!(err.kind, "unterminated escape");
}

#[test]
fn rust_minify_keeps_string_spaces() {
    let out = minify_rust_generated("f(  \"a   b\"  )").unwrap();
    assert_eq!(out.as_str(), "f( \"a   b\" )");
}

#[test]
fn route_mod_minify_matches_rust() {
    let src = "mod a; // x\nmod b;\n";
    assert_eq!(
        minify_route_mod_generated(src).unwrap().as_str(),
        minify_rust_generated(src).unwrap().as_str()
    );
    assert_eq!(minify_route_mod_generated(src).unwrap().as_str(), "mod a; mod b;");
}

#[test]
fn js_minify_errors() {
    assert_eq!(minify_js_generated("a `x").unwrap_err().kind, "unterminated template literal");
    assert_eq!(minify_js_generated("a `x\\").unwrap_err().kind, "unterminated template escape");
    assert_eq!(minify_js_generated("a 'x").unwrap_err().kind, "unterminated string");
    let err = minify_js_generated("a /* b").unwrap_err();
    assert_eq!(err.kind, "unterminated block comment");
    assert_eq!(err.offset, 4);
}

#[test]
fn js_minify_single_quotes_and_comments() {
    let out = minify_js_generated("let a = 'x  y'; /* c */ let b = 1;").unwrap();
    assert_eq!(out.as_str(), "let a = 'x  y'; let b = 1;");
}

#[test]
fn rust_minify_string_ending_in_escaped_quote_is_unterminated() {
    let err = minify_rust_generated("\"a\\\"").unwrap_err();
    assert_eq!(err.kind, "unterminated string");
}
