use volki_web::compiler::parser::{RsxAttr, RsxAttrValue, RsxNode};
use volki_web::compiler::codegen::{generate_html_fn, generate_html_fn_with_client, generate_fragment_fn, generate_children_expr, generate_html_fn_styled};

fn s(val: &str) -> String {
    String::from(val)
}

fn empty_nodes() -> Vec<RsxNode> {
    Vec::new()
}

fn empty_attrs() -> Vec<RsxAttr> {
    Vec::new()
}

#[test]
fn test_codegen_simple_div() {
    let nodes = vec![RsxNode::Element {
        tag: s("div"),
        attrs: vec![RsxAttr { name: s("class"), value: RsxAttrValue::Literal(s("foo")) }],
        children: vec![RsxNode::Text(s("hello"))],
        self_closing: false,
    }];
    let code = generate_html_fn(&nodes);
    assert!(code.contains("div().class(\"foo\").text(\"hello\").into_node()"));
}

#[test]
fn test_codegen_nested() {
    let nodes = vec![RsxNode::Element {
        tag: s("div"),
        attrs: empty_attrs(),
        children: vec![RsxNode::Element {
            tag: s("span"),
            attrs: empty_attrs(),
            children: vec![RsxNode::Text(s("inner"))],
            self_closing: false,
        }],
        self_closing: false,
    }];
    let code = generate_html_fn(&nodes);
    assert!(code.contains("div().child(span().text(\"inner\").into_node()).into_node()"));
}

#[test]
fn test_codegen_html_fn() {
    let nodes = vec![
        RsxNode::Element {
            tag: s("Style"),
            attrs: empty_attrs(),
            children: vec![RsxNode::Expr(s("CSS"))],
            self_closing: false,
        },
        RsxNode::Element {
            tag: s("div"),
            attrs: vec![RsxAttr { name: s("class"), value: RsxAttrValue::Literal(s("main")) }],
            children: empty_nodes(),
            self_closing: false,
        },
    ];
    let code = generate_html_fn(&nodes);
    assert!(code.contains("HtmlDocument::new()"));
    assert!(code.contains(".inline_style(CSS)"));
    assert!(code.contains(".body_node("));
    assert!(code.contains("div().class(\"main\").into_node()"));
}

#[test]
fn test_codegen_fragment_fn() {
    let nodes = vec![
        RsxNode::Element {
            tag: s("div"),
            attrs: empty_attrs(),
            children: vec![RsxNode::Text(s("one"))],
            self_closing: false,
        },
        RsxNode::Element {
            tag: s("span"),
            attrs: empty_attrs(),
            children: vec![RsxNode::Text(s("two"))],
            self_closing: false,
        },
    ];
    let code = generate_fragment_fn(&nodes);
    assert!(code.contains("let mut __rsx_nodes = Vec::new();"));
    assert!(code.contains("__rsx_nodes.push("));
    assert!(code.contains("div().text(\"one\").into_node()"));
    assert!(code.contains("span().text(\"two\").into_node()"));
    assert!(code.contains("__rsx_nodes"));
}

#[test]
fn test_codegen_style_element() {
    let nodes = vec![RsxNode::Element {
        tag: s("Style"),
        attrs: empty_attrs(),
        children: vec![RsxNode::Expr(s("CSS"))],
        self_closing: false,
    }];
    let code = generate_html_fn(&nodes);
    assert!(code.contains(".inline_style(CSS)"));
    assert!(!code.contains(".body_node("));
}

#[test]
fn test_codegen_expression_child() {
    let nodes = vec![RsxNode::Element {
        tag: s("div"),
        attrs: empty_attrs(),
        children: vec![RsxNode::Expr(s("sidebar_content()"))],
        self_closing: false,
    }];
    let code = generate_html_fn(&nodes);
    assert!(code.contains(".children((sidebar_content()).into_children())"));
}

#[test]
fn test_codegen_self_closing() {
    let nodes = vec![RsxNode::Element {
        tag: s("br"),
        attrs: empty_attrs(),
        children: empty_nodes(),
        self_closing: true,
    }];
    let code = generate_html_fn(&nodes);
    assert!(code.contains("br().into_node()"));
}

#[test]
fn test_codegen_attr_shorthand() {
    let nodes = vec![RsxNode::Element {
        tag: s("div"),
        attrs: vec![
            RsxAttr { name: s("class"), value: RsxAttrValue::Literal(s("container")) },
            RsxAttr { name: s("id"), value: RsxAttrValue::Literal(s("main")) },
            RsxAttr { name: s("data-x"), value: RsxAttrValue::Literal(s("y")) },
        ],
        children: empty_nodes(),
        self_closing: false,
    }];
    let code = generate_html_fn(&nodes);
    assert!(code.contains(".class(\"container\")"));
    assert!(code.contains(".id(\"main\")"));
    assert!(code.contains(".attr(\"data-x\", \"y\")"));
}

#[test]
fn test_codegen_event_expr_attr_to_data_binding() {
    let nodes = vec![RsxNode::Element {
        tag: s("button"),
        attrs: vec![
            RsxAttr { name: s("onclick"), value: RsxAttrValue::Expr(s("on_increment")) },
        ],
        children: vec![RsxNode::Text(s("+"))],
        self_closing: false,
    }];
    let code = generate_html_fn(&nodes);
    assert!(code.contains("button().attr(\"data-volki-onclick\", \"on_increment\")"));
}

#[test]
fn test_codegen_head_element() {
    let nodes = vec![RsxNode::Element {
        tag: s("Head"),
        attrs: empty_attrs(),
        children: vec![RsxNode::Element {
            tag: s("meta"),
            attrs: vec![RsxAttr { name: s("charset"), value: RsxAttrValue::Literal(s("utf-8")) }],
            children: empty_nodes(),
            self_closing: true,
        }],
        self_closing: false,
    }];
    let code = generate_html_fn(&nodes);
    assert!(code.contains(".head_node("));
    assert!(code.contains("meta().attr(\"charset\", \"utf-8\").into_node()"));
}

#[test]
fn test_codegen_styled_injects_css() {
    let nodes = vec![RsxNode::Element {
        tag: s("div"),
        attrs: vec![RsxAttr { name: s("class"), value: RsxAttrValue::Literal(s("flex")) }],
        children: vec![RsxNode::Text(s("hello"))],
        self_closing: false,
    }];
    let css = ".flex{display:flex;}";
    let code = generate_html_fn_styled(&nodes, css, None);
    assert!(code.contains("HtmlDocument::new()"));
    assert!(code.contains(".inline_style(\".flex{display:flex;}\")"));
    assert!(code.contains("div().class(\"flex\").text(\"hello\").into_node()"));
}

#[test]
fn test_codegen_styled_empty_css() {
    let nodes = vec![RsxNode::Element {
        tag: s("div"),
        attrs: empty_attrs(),
        children: vec![RsxNode::Text(s("hello"))],
        self_closing: false,
    }];
    let code = generate_html_fn_styled(&nodes, "", None);
    assert!(code.contains("HtmlDocument::new()"));
    assert!(!code.contains(".inline_style("));
}

#[test]
fn test_codegen_styled_with_glue() {
    let nodes = vec![RsxNode::Element {
        tag: s("div"),
        attrs: vec![RsxAttr { name: s("class"), value: RsxAttrValue::Literal(s("flex")) }],
        children: empty_nodes(),
        self_closing: false,
    }];
    let css = ".flex{display:flex;}";
    let glue_url = "/wasm/page_glue.js";
    let code = generate_html_fn_styled(&nodes, css, Some(glue_url));
    assert!(code.contains(".inline_style(\".flex{display:flex;}\")"));
    assert!(code.contains(".script_module(\"/wasm/page_glue.js\")"));
}

#[test]
fn test_codegen_styled_with_existing_style() {
    let nodes = vec![
        RsxNode::Element {
            tag: s("Style"),
            attrs: empty_attrs(),
            children: vec![RsxNode::Expr(s("CSS"))],
            self_closing: false,
        },
        RsxNode::Element {
            tag: s("div"),
            attrs: vec![RsxAttr { name: s("class"), value: RsxAttrValue::Literal(s("flex")) }],
            children: empty_nodes(),
            self_closing: false,
        },
    ];
    let css = ".flex{display:flex;}";
    let code = generate_html_fn_styled(&nodes, css, None);
    // Utility CSS should come first (before body nodes and user styles)
    let utility_pos = code.as_str().find(".inline_style(\".flex").unwrap();
    let user_pos = code.as_str().find(".inline_style(CSS)").unwrap();
    assert!(utility_pos < user_pos);
}

// ── Conditional rendering codegen tests ──

#[test]
fn test_codegen_cond_and_in_fragment() {
    let nodes = vec![RsxNode::CondAnd {
        condition: s("is_admin"),
        body: vec![RsxNode::Element {
            tag: s("span"),
            attrs: empty_attrs(),
            children: vec![RsxNode::Text(s("Admin"))],
            self_closing: false,
        }],
    }];
    let code = generate_fragment_fn(&nodes);
    assert!(code.contains("if is_admin {"));
    assert!(code.contains("__rsx_nodes.push("));
    assert!(code.contains("span().text(\"Admin\").into_node()"));
}

#[test]
fn test_codegen_ternary_in_fragment() {
    let nodes = vec![RsxNode::Ternary {
        condition: s("flag"),
        if_true: vec![RsxNode::Element {
            tag: s("span"),
            attrs: empty_attrs(),
            children: vec![RsxNode::Text(s("yes"))],
            self_closing: false,
        }],
        if_false: vec![RsxNode::Element {
            tag: s("span"),
            attrs: empty_attrs(),
            children: vec![RsxNode::Text(s("no"))],
            self_closing: false,
        }],
    }];
    let code = generate_fragment_fn(&nodes);
    assert!(code.contains("__rsx_nodes.push(if flag {"));
    assert!(code.contains("span().text(\"yes\").into_node()"));
    assert!(code.contains("} else {"));
    assert!(code.contains("span().text(\"no\").into_node()"));
}

#[test]
fn test_codegen_cond_and_as_element_child() {
    let nodes = vec![RsxNode::Element {
        tag: s("div"),
        attrs: empty_attrs(),
        children: vec![RsxNode::CondAnd {
            condition: s("show"),
            body: vec![RsxNode::Element {
                tag: s("span"),
                attrs: vec![RsxAttr { name: s("class"), value: RsxAttrValue::Literal(s("flex")) }],
                children: vec![RsxNode::Text(s("hello"))],
                self_closing: false,
            }],
        }],
        self_closing: false,
    }];
    let code = generate_html_fn(&nodes);
    assert!(code.contains(".children("));
    assert!(code.contains("if show {"));
    assert!(code.contains("__c.push("));
    assert!(code.contains("span().class(\"flex\").text(\"hello\").into_node()"));
}

#[test]
fn test_codegen_ternary_as_element_child() {
    let nodes = vec![RsxNode::Element {
        tag: s("div"),
        attrs: empty_attrs(),
        children: vec![RsxNode::Ternary {
            condition: s("active"),
            if_true: vec![RsxNode::Element {
                tag: s("b"),
                attrs: empty_attrs(),
                children: vec![RsxNode::Text(s("on"))],
                self_closing: false,
            }],
            if_false: vec![RsxNode::Element {
                tag: s("i"),
                attrs: empty_attrs(),
                children: vec![RsxNode::Text(s("off"))],
                self_closing: false,
            }],
        }],
        self_closing: false,
    }];
    let code = generate_html_fn(&nodes);
    assert!(code.contains(".child(if active {"));
    assert!(code.contains("b().text(\"on\").into_node()"));
    assert!(code.contains("} else {"));
    assert!(code.contains("i().text(\"off\").into_node()"));
}

#[test]
fn test_codegen_cond_and_in_html_toplevel() {
    let nodes = vec![RsxNode::CondAnd {
        condition: s("show_banner"),
        body: vec![RsxNode::Element {
            tag: s("div"),
            attrs: vec![RsxAttr { name: s("class"), value: RsxAttrValue::Literal(s("banner")) }],
            children: vec![RsxNode::Text(s("Welcome"))],
            self_closing: false,
        }],
    }];
    let code = generate_html_fn(&nodes);
    assert!(code.contains(".body_nodes("));
    assert!(code.contains("if show_banner {"));
    assert!(code.contains("__c.push("));
    assert!(code.contains("div().class(\"banner\").text(\"Welcome\").into_node()"));
}

#[test]
fn test_codegen_ternary_in_html_toplevel() {
    let nodes = vec![RsxNode::Ternary {
        condition: s("dark"),
        if_true: vec![RsxNode::Element {
            tag: s("div"),
            attrs: vec![RsxAttr { name: s("class"), value: RsxAttrValue::Literal(s("dark")) }],
            children: empty_nodes(),
            self_closing: false,
        }],
        if_false: vec![RsxNode::Element {
            tag: s("div"),
            attrs: vec![RsxAttr { name: s("class"), value: RsxAttrValue::Literal(s("light")) }],
            children: empty_nodes(),
            self_closing: false,
        }],
    }];
    let code = generate_html_fn(&nodes);
    assert!(code.contains(".body_node("));
    assert!(code.contains("if dark {"));
    assert!(code.contains("div().class(\"dark\").into_node()"));
    assert!(code.contains("} else {"));
    assert!(code.contains("div().class(\"light\").into_node()"));
}

// ── Stylesheet codegen tests ──

#[test]
fn test_codegen_stylesheet_in_html_fn() {
    let nodes = vec![
        RsxNode::Element {
            tag: s("Stylesheet"),
            attrs: vec![RsxAttr { name: s("href"), value: RsxAttrValue::Literal(s("/styles/app.css")) }],
            children: empty_nodes(),
            self_closing: true,
        },
        RsxNode::Element {
            tag: s("div"),
            attrs: empty_attrs(),
            children: vec![RsxNode::Text(s("hello"))],
            self_closing: false,
        },
    ];
    let code = generate_html_fn(&nodes);
    assert!(code.contains(".stylesheet(\"/styles/app.css\")"));
    assert!(code.contains("div().text(\"hello\").into_node()"));
}

#[test]
fn test_codegen_stylesheet_in_styled_fn() {
    let nodes = vec![
        RsxNode::Element {
            tag: s("Stylesheet"),
            attrs: vec![RsxAttr { name: s("href"), value: RsxAttrValue::Literal(s("/fonts/inter.css")) }],
            children: empty_nodes(),
            self_closing: true,
        },
        RsxNode::Element {
            tag: s("div"),
            attrs: vec![RsxAttr { name: s("class"), value: RsxAttrValue::Literal(s("flex")) }],
            children: empty_nodes(),
            self_closing: false,
        },
    ];
    let css = ".flex{display:flex;}";
    let code = generate_html_fn_styled(&nodes, css, None);
    assert!(code.contains(".stylesheet(\"/fonts/inter.css\")"));
    assert!(code.contains(".inline_style(\".flex{display:flex;}\")"));
    assert!(code.contains("div().class(\"flex\").into_node()"));
}
