//! RSX parser: recursive descent from tokens to an RSX tree.

use vstd::prelude::*;
use std::path::PathBuf;
use super::{CompileError, clone_path};
use super::tokenizer::{Token, TokView, tokenize, token_text_len, skip_literal, lemma_skip_literal, is_alpha, name_end, lemma_name_end, lex, toks_view, tok_view};
use super::tokenizer;
use vstd::string::StrSliceExecFns;
use crate::text::{chars_of, string_of, trim_bounds, str_eq, trimmed};

verus! {

/// An attribute value: a literal string or a Rust expression.
#[derive(Debug, PartialEq, Eq)]
pub enum RsxAttrValue {
    Literal(String),
    Expr(String),
}

/// An attribute of an RSX element.
#[derive(Debug, PartialEq, Eq)]
pub struct RsxAttr {
    pub name: String,
    pub value: RsxAttrValue,
}

/// A node of an RSX tree.
#[derive(Debug, PartialEq, Eq)]
pub enum RsxNode {
    Element { tag: String, attrs: Vec<RsxAttr>, children: Vec<RsxNode>, self_closing: bool },
    Text(String),
    Expr(String),
    CondAnd { condition: String, body: Vec<RsxNode> },
    Ternary { condition: String, if_true: Vec<RsxNode>, if_false: Vec<RsxNode> },
}

/// Which top-level pattern a scan looks for.
#[derive(PartialEq, Eq, Structural)]
pub enum Scan {
    /// `&&` followed by RSX.
    AndRsx,
    /// Any `&&`.
    And,
    /// `?` followed by RSX.
    QuestionRsx,
    /// Any `?`.
    Question,
}

/// RSX starts at `p` of `s`: `"`, or `<` and a letter.
pub open spec fn jsx_start(s: Seq<char>, p: int) -> bool {
    0 <= p < s.len() && (s[p] == '"' || (s[p] == '<' && p + 1 < s.len() && is_alpha(s[p + 1])))
}

/// The pattern of `what` starts at `i` of `s`.
pub open spec fn scan_hit(s: Seq<char>, i: int, what: Scan) -> bool {
    match what {
        Scan::AndRsx => s[i] == '&' && i + 1 < s.len() && s[i + 1] == '&' && jsx_start(s, tokenizer::skip_ws(s, i + 2)),
        Scan::And => s[i] == '&' && i + 1 < s.len() && s[i + 1] == '&',
        Scan::QuestionRsx => s[i] == '?' && jsx_start(s, tokenizer::skip_ws(s, i + 1)),
        Scan::Question => s[i] == '?',
    }
}

/// The first position at or after `i` where the pattern of `what` starts outside
/// string literals, at brace and paren depth 0 (`brace` and `paren` open at `i`).
pub open spec fn top_scan(s: Seq<char>, i: int, brace: int, paren: int, what: Scan) -> Option<int>
    decreases s.len() - i,
{
    if i < 0 || i >= s.len() {
        None
    } else {
        let c = s[i];
        if c == '"' {
            proof { lemma_skip_literal(s, i + 1); }
            top_scan(s, skip_literal(s, i + 1), brace, paren, what)
        } else if c == '{' {
            top_scan(s, i + 1, brace + 1, paren, what)
        } else if c == '}' {
            top_scan(s, i + 1, brace - 1, paren, what)
        } else if c == '(' {
            top_scan(s, i + 1, brace, paren + 1, what)
        } else if c == ')' {
            top_scan(s, i + 1, brace, paren - 1, what)
        } else if brace == 0 && paren == 0 && scan_hit(s, i, what) {
            Some(i)
        } else {
            top_scan(s, i + 1, brace, paren, what)
        }
    }
}

/// The first `>` at or after `p` (or the end).
pub open spec fn gt_from(s: Seq<char>, p: int) -> int
    decreases s.len() - p,
{
    if p < 0 || p >= s.len() { p } else if s[p] == '>' { p } else { gt_from(s, p + 1) }
}

/// Where the attributes of an opening tag scanned from `p` end (after `>` or
/// `/>`, literals skipped), and whether the tag closes itself.
pub open spec fn tag_rest(s: Seq<char>, p: int) -> (int, bool)
    decreases s.len() - p,
{
    if p < 0 || p >= s.len() {
        (p, false)
    } else if s[p] == '"' {
        proof { lemma_skip_literal(s, p + 1); }
        tag_rest(s, skip_literal(s, p + 1))
    } else if s[p] == '/' && p + 1 < s.len() && s[p + 1] == '>' {
        (p + 2, true)
    } else if s[p] == '>' {
        (p + 1, false)
    } else {
        tag_rest(s, p + 1)
    }
}

pub proof fn lemma_gt_from(s: Seq<char>, p: int)
    requires
        0 <= p <= s.len(),
    ensures
        p <= gt_from(s, p) <= s.len(),
    decreases s.len() - p,
{
    if p < s.len() && s[p] != '>' {
        lemma_gt_from(s, p + 1);
    }
}

pub proof fn lemma_tag_rest(s: Seq<char>, p: int)
    requires
        0 <= p <= s.len(),
    ensures
        p <= tag_rest(s, p).0 <= s.len(),
    decreases s.len() - p,
{
    if p < s.len() {
        if s[p] == '"' {
            lemma_skip_literal(s, p + 1);
            lemma_tag_rest(s, skip_literal(s, p + 1));
        } else if !(s[p] == '/' && p + 1 < s.len() && s[p + 1] == '>') && s[p] != '>' {
            lemma_tag_rest(s, p + 1);
        }
    }
}

/// The `:` that separates the branches of a ternary, searched from `i`: the first
/// one outside literals, at brace depth 0 and RSX tag depth 0, after some literal
/// or tag has been seen (`tag`, `brace`, `seen` as they stand at `i`).
pub open spec fn colon_scan(s: Seq<char>, i: int, tag: int, brace: int, seen: bool) -> Option<int>
    decreases s.len() - i,
{
    if i < 0 || i >= s.len() {
        None
    } else {
        let c = s[i];
        if c == '"' {
            proof { lemma_skip_literal(s, i + 1); }
            colon_scan(s, skip_literal(s, i + 1), tag, brace, true)
        } else if c == '{' {
            colon_scan(s, i + 1, tag, brace + 1, seen)
        } else if c == '}' {
            colon_scan(s, i + 1, tag, brace - 1, seen)
        } else if c == '<' && brace == 0 {
            if i + 1 < s.len() && s[i + 1] == '/' {
                proof { lemma_gt_from(s, i + 2); }
                let g = gt_from(s, i + 2);
                colon_scan(s, if g < s.len() { g + 1 } else { g }, tag - 1, brace, true)
            } else if i + 1 < s.len() && is_alpha(s[i + 1]) {
                proof {
                    lemma_name_end(s, i + 1);
                    lemma_tag_rest(s, name_end(s, i + 1));
                }
                let k = tag_rest(s, name_end(s, i + 1));
                colon_scan(s, k.0, if k.1 { tag } else { tag + 1 }, brace, true)
            } else {
                colon_scan(s, i + 1, tag, brace, true)
            }
        } else if c == ':' && brace == 0 && tag == 0 && seen {
            Some(i)
        } else {
            colon_scan(s, i + 1, tag, brace, seen)
        }
    }
}

/// The position of the first non-white-space character at or after `pos`.
fn skip_ws(cs: &Vec<char>, pos: usize) -> (r: usize)
    ensures
        r >= pos,
        pos <= cs@.len() ==> r <= cs@.len(),
        r < cs@.len() ==> !(cs@[r as int] == ' ' || cs@[r as int] == '\t' || cs@[r as int] == '\n' || cs@[r as int] == '\r'),
        r == tokenizer::skip_ws(cs@, pos as int),
{
    let mut p = pos;
    while p < cs.len()
        invariant
            p >= pos,
            pos <= cs@.len() ==> p <= cs@.len(),
            tokenizer::skip_ws(cs@, p as int) == tokenizer::skip_ws(cs@, pos as int),
        ensures
            p == tokenizer::skip_ws(cs@, pos as int),
            p >= pos,
            pos <= cs@.len() ==> p <= cs@.len(),
            p < cs@.len() ==> !(cs@[p as int] == ' ' || cs@[p as int] == '\t' || cs@[p as int] == '\n' || cs@[p as int] == '\r'),
        decreases cs@.len() - p,
    {
        let c = cs[p];
        if c == ' ' || c == '\t' || c == '\n' || c == '\r' {
            p += 1;
        } else {
            break;
        }
    }
    p
}

/// Whether RSX starts at `pos`: `<` and a letter, or `"`.
fn is_jsx_start(cs: &Vec<char>, pos: usize) -> (r: bool)
    ensures
        r == (pos < cs@.len() && (cs@[pos as int] == '"' || (cs@[pos as int] == '<' && pos + 1 < cs@.len()
            && (('a' <= cs@[pos + 1] <= 'z') || ('A' <= cs@[pos + 1] <= 'Z'))))),
        r == jsx_start(cs@, pos as int),
{
    if pos >= cs.len() {
        return false;
    }
    let c = cs[pos];
    if c == '"' {
        return true;
    }
    if c == '<' && cs.len() - pos > 1 {
        let d = cs[pos + 1];
        return ('a' <= d && d <= 'z') || ('A' <= d && d <= 'Z');
    }
    false
}

/// The position just after the string literal whose opening quote is at `i`
/// (a backslash escapes the next character).
fn skip_quoted(cs: &Vec<char>, i: usize) -> (r: usize)
    requires
        i < cs@.len(),
    ensures
        i < r <= cs@.len(),
        r == skip_literal(cs@, i + 1),
{
    let n = cs.len();
    let mut j = i + 1;
    while j < n
        invariant
            n == cs@.len(),
            i < j <= n,
            skip_literal(cs@, j as int) == skip_literal(cs@, i + 1),
        decreases n - j,
    {
        if cs[j] == '\\' {
            j = if n - j >= 2 { j + 2 } else { n };
            continue;
        }
        if cs[j] == '"' {
            return j + 1;
        }
        j += 1;
    }
    j
}

/// The first position, outside string literals and at brace and paren depth 0,
/// where the pattern of `what` starts.
fn find_top_level(cs: &Vec<char>, what: Scan) -> (r: Option<usize>)
    ensures
        r matches Some(i) ==> i < cs@.len() && (match what {
            Scan::AndRsx | Scan::And => cs@[i as int] == '&' && i + 1 < cs@.len() && cs@[i + 1] == '&',
            _ => cs@[i as int] == '?',
        }),
        r matches Some(i) ==> top_scan(cs@, 0, 0, 0, what) == Some(i as int),
        r is None ==> top_scan(cs@, 0, 0, 0, what) is None,
{
    let n = cs.len();
    let mut i: usize = 0;
    let mut brace: i128 = 0;
    let mut paren: i128 = 0;
    while i < n
        invariant
            n == cs@.len(),
            i <= n,
            -(i as int) <= brace <= i,
            -(i as int) <= paren <= i,
            top_scan(cs@, i as int, brace as int, paren as int, what) == top_scan(cs@, 0, 0, 0, what),
        decreases n - i,
    {
        let c = cs[i];
        if c == '"' {
            i = skip_quoted(cs, i);
            continue;
        }
        if c == '{' {
            brace += 1;
        } else if c == '}' {
            brace -= 1;
        } else if c == '(' {
            paren += 1;
        } else if c == ')' {
            paren -= 1;
        } else if brace == 0 && paren == 0 {
            match what {
                Scan::AndRsx => {
                    if c == '&' && n - i > 1 && cs[i + 1] == '&' {
                        let after = skip_ws(cs, i + 2);
                        if is_jsx_start(cs, after) {
                            return Some(i);
                        }
                    }
                },
                Scan::And => {
                    if c == '&' && n - i > 1 && cs[i + 1] == '&' {
                        return Some(i);
                    }
                },
                Scan::QuestionRsx => {
                    if c == '?' {
                        let after = skip_ws(cs, i + 1);
                        if is_jsx_start(cs, after) {
                            return Some(i);
                        }
                    }
                },
                Scan::Question => {
                    if c == '?' {
                        return Some(i);
                    }
                },
            }
        }
        i += 1;
    }
    None
}

/// The `:` separating the branches of a ternary: the first one outside strings,
/// at brace depth 0 and RSX tag depth 0, after some content.
fn find_ternary_colon(cs: &Vec<char>) -> (r: Option<usize>)
    ensures
        r matches Some(i) ==> i < cs@.len() && cs@[i as int] == ':',
        r matches Some(i) ==> colon_scan(cs@, 0, 0, 0, false) == Some(i as int),
        r is None ==> colon_scan(cs@, 0, 0, 0, false) is None,
{
    let n = cs.len();
    let mut i: usize = 0;
    let mut tag_depth: i128 = 0;
    let mut brace: i128 = 0;
    let mut seen_content = false;
    while i < n
        invariant
            n == cs@.len(),
            i <= n,
            -(i as int) <= brace <= i,
            -(i as int) <= tag_depth <= i,
            colon_scan(cs@, i as int, tag_depth as int, brace as int, seen_content) == colon_scan(cs@, 0, 0, 0, false),
        decreases n - i,
    {
        let c = cs[i];
        if c == '"' {
            seen_content = true;
            i = skip_quoted(cs, i);
            continue;
        }
        if c == '{' {
            brace += 1;
        } else if c == '}' {
            brace -= 1;
        } else if c == '<' && brace == 0 {
            seen_content = true;
            if n - i > 1 && cs[i + 1] == '/' {
                let ghost i0 = i;
                i += 2;
                while i < n && cs[i] != '>'
                    invariant
                        n == cs@.len(),
                        i <= n,
                        i >= i0 + 2,
                        gt_from(cs@, i as int) == gt_from(cs@, i0 + 2),
                    decreases n - i,
                {
                    i += 1;
                }
                if i < n {
                    i += 1;
                }
                tag_depth -= 1;
                continue;
            } else if n - i > 1 && (('a' <= cs[i + 1] && cs[i + 1] <= 'z') || ('A' <= cs[i + 1] && cs[i + 1] <= 'Z')) {
                let i0 = i;
                i += 1;
                while i < n && (('a' <= cs[i] && cs[i] <= 'z') || ('A' <= cs[i] && cs[i] <= 'Z') || ('0' <= cs[i] && cs[i] <= '9') || cs[i] == '_' || cs[i] == '-')
                    invariant
                        n == cs@.len(),
                        i0 < i <= n,
                        name_end(cs@, i as int) == name_end(cs@, i0 + 1),
                    decreases n - i,
                {
                    i += 1;
                }
                let ghost e = i as int;
                let mut self_closing = false;
                while i < n
                    invariant_except_break
                        tag_rest(cs@, i as int) == tag_rest(cs@, e),
                        !self_closing,
                    invariant
                        n == cs@.len(),
                        i0 < i <= n,
                        e == name_end(cs@, i0 + 1),
                    ensures
                        (i as int, self_closing) == tag_rest(cs@, e),
                    decreases n - i,
                {
                    if cs[i] == '"' {
                        i = skip_quoted(cs, i);
                        continue;
                    }
                    if cs[i] == '/' && n - i > 1 && cs[i + 1] == '>' {
                        self_closing = true;
                        i += 2;
                        break;
                    }
                    if cs[i] == '>' {
                        i += 1;
                        break;
                    }
                    i += 1;
                }
                if !self_closing {
                    tag_depth += 1;
                }
                continue;
            }
        } else if c == ':' && brace == 0 && tag_depth == 0 && seen_content {
            return Some(i);
        }
        i += 1;
    }
    None
}


/// What an attribute value says, as plain values.
pub enum AttrValueView {
    Literal(Seq<char>),
    Expr(Seq<char>),
}

/// What an attribute says, as plain values.
pub struct AttrView {
    pub name: Seq<char>,
    pub value: AttrValueView,
}

/// What a node of an RSX tree says, as plain values.
pub enum NodeView {
    Element { tag: Seq<char>, attrs: Seq<AttrView>, children: Seq<NodeView>, self_closing: bool },
    Text(Seq<char>),
    Expr(Seq<char>),
    CondAnd { condition: Seq<char>, body: Seq<NodeView> },
    Ternary { condition: Seq<char>, if_true: Seq<NodeView>, if_false: Seq<NodeView> },
}

/// The view of an attribute.
pub open spec fn attr_view(a: RsxAttr) -> AttrView {
    AttrView {
        name: a.name@,
        value: match a.value {
            RsxAttrValue::Literal(v) => AttrValueView::Literal(v@),
            RsxAttrValue::Expr(v) => AttrValueView::Expr(v@),
        },
    }
}

/// The views of attributes.
pub open spec fn attrs_view(attrs: Seq<RsxAttr>) -> Seq<AttrView> {
    attrs.map_values(|a: RsxAttr| attr_view(a))
}

/// The view of a node.
pub open spec fn node_view(n: RsxNode) -> NodeView
    decreases n, 0int,
{
    match n {
        RsxNode::Element { tag, attrs, children, self_closing } => NodeView::Element {
            tag: tag@,
            attrs: attrs_view(attrs@),
            children: nodes_view(children@),
            self_closing,
        },
        RsxNode::Text(t) => NodeView::Text(t@),
        RsxNode::Expr(e) => NodeView::Expr(e@),
        RsxNode::CondAnd { condition, body } => NodeView::CondAnd { condition: condition@, body: nodes_view(body@) },
        RsxNode::Ternary { condition, if_true, if_false } => NodeView::Ternary {
            condition: condition@,
            if_true: nodes_view(if_true@),
            if_false: nodes_view(if_false@),
        },
    }
}

/// The views of nodes.
pub open spec fn nodes_view(ns: Seq<RsxNode>) -> Seq<NodeView>
    decreases ns, 1int,
{
    if ns.len() == 0 { Seq::empty() } else { nodes_view(ns.drop_last()).push(node_view(ns.last())) }
}

/// `n` in front of the nodes of `r` (an error stays an error).
pub open spec fn cons_nodes(n: NodeView, r: Result<(Seq<NodeView>, int), Seq<char>>) -> Result<(Seq<NodeView>, int), Seq<char>> {
    match r {
        Ok((ns, q)) => Ok((seq![n] + ns, q)),
        Err(m) => Err(m),
    }
}

/// `a` in front of the attributes of `r` (an error stays an error).
pub open spec fn cons_attrs(a: AttrView, r: Result<(Seq<AttrView>, int, bool), Seq<char>>) -> Result<(Seq<AttrView>, int, bool), Seq<char>> {
    match r {
        Ok((attrs, q, sc)) => Ok((seq![a] + attrs, q, sc)),
        Err(m) => Err(m),
    }
}

/// The attributes of an opening tag whose tokens start at `p`, the position after
/// its `>` or `/>`, and whether it closes itself; or the error message.
pub open spec fn attrs_parse(ts: Seq<TokView>, p: int) -> Result<(Seq<AttrView>, int, bool), Seq<char>>
    decreases ts.len() - p,
{
    if p < 0 || p >= ts.len() {
        Err("unexpected token in tag attributes"@)
    } else {
        match ts[p] {
            TokView::AttrName(name) => if p + 1 >= ts.len() || !(ts[p + 1] is AttrEquals) {
                Err("expected '=' after attribute name"@)
            } else if p + 2 >= ts.len() {
                Err("expected attribute value"@)
            } else {
                match ts[p + 2] {
                    TokView::AttrValue(v) => cons_attrs(AttrView { name, value: AttrValueView::Literal(v) }, attrs_parse(ts, p + 3)),
                    TokView::AttrExpr(v) => cons_attrs(AttrView { name, value: AttrValueView::Expr(v) }, attrs_parse(ts, p + 3)),
                    _ => Err("expected attribute value"@),
                }
            },
            TokView::SelfCloseEnd => Ok((Seq::empty(), p + 1, true)),
            TokView::TagEnd => Ok((Seq::empty(), p + 1, false)),
            _ => Err("unexpected token in tag attributes"@),
        }
    }
}

pub proof fn lemma_attrs_parse(ts: Seq<TokView>, p: int)
    ensures
        attrs_parse(ts, p) matches Ok((_, q, _)) ==> p < q <= ts.len(),
    decreases ts.len() - p,
{
    if 0 <= p && p + 3 <= ts.len() {
        lemma_attrs_parse(ts, p + 3);
    }
}

/// The nodes whose tokens start at `p`, up to the end or a closing tag, and the
/// position after them; or the error message. `fuel` bounds the length of the
/// RSX pieces that expressions hold: a piece that reaches it has no parse.
pub open spec fn rsx_nodes(ts: Seq<TokView>, p: int, fuel: nat) -> Result<(Seq<NodeView>, int), Seq<char>>
    decreases fuel, ts.len() - p, 2int,
{
    if p < 0 || p >= ts.len() {
        Ok((Seq::empty(), p))
    } else if ts[p] is CloseTag {
        Ok((Seq::empty(), p))
    } else {
        match rsx_node(ts, p, fuel) {
            Err(m) => Err(m),
            Ok((n, q)) => if p < q <= ts.len() {
                cons_nodes(n, rsx_nodes(ts, q, fuel))
            } else {
                Err("unexpected token"@)
            },
        }
    }
}

/// The node whose tokens start at `p` and the position after it; or the error message.
pub open spec fn rsx_node(ts: Seq<TokView>, p: int, fuel: nat) -> Result<(NodeView, int), Seq<char>>
    decreases fuel, ts.len() - p, 1int,
{
    if p < 0 || p >= ts.len() {
        Err("unexpected end of tokens"@)
    } else {
        match ts[p] {
            TokView::OpenTag(_) => rsx_element(ts, p, fuel),
            TokView::TextLiteral(t) => Ok((NodeView::Text(t), p + 1)),
            TokView::Expression(e) => match rsx_expr(e, fuel) {
                Ok(n) => Ok((n, p + 1)),
                Err(m) => Err(m),
            },
            _ => Err("unexpected token"@),
        }
    }
}

/// The element whose opening tag is at `p` and the position after it; or the
/// error message.
pub open spec fn rsx_element(ts: Seq<TokView>, p: int, fuel: nat) -> Result<(NodeView, int), Seq<char>>
    decreases fuel, ts.len() - p, 0int,
{
    if p < 0 || p >= ts.len() {
        Err("expected opening tag"@)
    } else {
        match ts[p] {
            TokView::OpenTag(tag) => {
                proof { lemma_attrs_parse(ts, p + 1); }
                match attrs_parse(ts, p + 1) {
                    Err(m) => Err(m),
                    Ok((attrs, q, self_closing)) => if self_closing {
                        Ok((NodeView::Element { tag, attrs, children: Seq::empty(), self_closing: true }, q))
                    } else {
                        match rsx_nodes(ts, q, fuel) {
                            Err(m) => Err(m),
                            Ok((children, r)) => if r < 0 || r >= ts.len() {
                                Err("expected closing tag"@)
                            } else {
                                match ts[r] {
                                    TokView::CloseTag(c) => if c == tag {
                                        Ok((NodeView::Element { tag, attrs, children, self_closing: false }, r + 1))
                                    } else {
                                        Err("mismatched closing tag"@)
                                    },
                                    _ => Err("expected closing tag"@),
                                }
                            },
                        }
                    },
                }
            },
            _ => Err("expected opening tag"@),
        }
    }
}

/// What an expression child becomes: a ternary `cond ? <a> : <b>`, a
/// conditional `cond && <rsx>`, or a plain expression; or the error message.
pub open spec fn rsx_expr(s: Seq<char>, fuel: nat) -> Result<NodeView, Seq<char>>
    decreases fuel, 0int, 1int,
{
    match top_scan(s, 0, 0, 0, Scan::QuestionRsx) {
        Some(q) => {
            let rest = s.subrange(q + 1, s.len() as int);
            match colon_scan(rest, 0, 0, 0, false) {
                None => Err("invalid ternary expression: expected `:`"@),
                Some(c) => {
                    let condition = trimmed(s, 0, q);
                    let t = trimmed(rest, 0, c);
                    let f = trimmed(rest, c + 1, rest.len() as int);
                    if condition.len() == 0 || t.len() == 0 || f.len() == 0 {
                        Err("invalid ternary expression: expected `cond ? a : b`"@)
                    } else {
                        match rsx_inline(t, fuel) {
                            Err(m) => Err(m),
                            Ok(if_true) => match rsx_inline(f, fuel) {
                                Err(m) => Err(m),
                                Ok(if_false) => Ok(NodeView::Ternary { condition, if_true, if_false }),
                            },
                        }
                    }
                },
            }
        },
        None => match top_scan(s, 0, 0, 0, Scan::AndRsx) {
            Some(a) => {
                let condition = trimmed(s, 0, a);
                let body = trimmed(s, a + 2, s.len() as int);
                if condition.len() == 0 || body.len() == 0 {
                    Err("invalid conditional expression: expected `cond && <rsx>`"@)
                } else {
                    match rsx_inline(body, fuel) {
                        Err(m) => Err(m),
                        Ok(b) => Ok(NodeView::CondAnd { condition, body: b }),
                    }
                }
            },
            None => if top_scan(s, 0, 0, 0, Scan::Question) matches Some(q) && trimmed(s, 0, q).len() == 0 {
                Err("invalid ternary expression: missing condition before `?`"@)
            } else if top_scan(s, 0, 0, 0, Scan::And) matches Some(a)
                && (trimmed(s, 0, a).len() == 0 || trimmed(s, a + 2, s.len() as int).len() == 0) {
                Err("invalid conditional expression: expected `cond && <expr>`"@)
            } else {
                Ok(NodeView::Expr(s))
            },
        },
    }
}

/// The nodes of a piece of RSX taken from an expression: tokenized, then parsed
/// up to the end or a closing tag; or the error message.
pub open spec fn rsx_inline(src: Seq<char>, fuel: nat) -> Result<Seq<NodeView>, Seq<char>>
    decreases fuel, 0int, 0int,
{
    if src.len() >= fuel {
        Err("unexpected end of tokens"@)
    } else {
        match lex(src, 0, false) {
            Err((m, _)) => Err(m),
            Ok(ts) => match rsx_nodes(ts, 0, src.len()) {
                Ok((ns, _)) => Ok(ns),
                Err(m) => Err(m),
            },
        }
    }
}

/// The length of the text a token view carries (0 for punctuation).
pub open spec fn view_text_len(t: TokView) -> nat {
    match t {
        TokView::OpenTag(n) => n.len(),
        TokView::CloseTag(n) => n.len(),
        TokView::AttrName(n) => n.len(),
        TokView::AttrValue(n) => n.len(),
        TokView::AttrExpr(n) => n.len(),
        TokView::TextLiteral(n) => n.len(),
        TokView::Expression(n) => n.len(),
        _ => 0,
    }
}

/// The length of the longest text the tokens carry.
pub open spec fn text_bound(ts: Seq<TokView>) -> nat
    decreases ts.len(),
{
    if ts.len() == 0 {
        0
    } else {
        let m = text_bound(ts.drop_last());
        let l = view_text_len(ts.last());
        if l > m { l } else { m }
    }
}

/// The RSX tree of a token stream: its nodes up to the end or a stray closing
/// tag; or the error message.
pub open spec fn rsx_parse(ts: Seq<TokView>) -> Result<Seq<NodeView>, Seq<char>> {
    match rsx_nodes(ts, 0, text_bound(ts)) {
        Ok((ns, _)) => Ok(ns),
        Err(m) => Err(m),
    }
}

/// Every token text is at most `n` characters long.
pub open spec fn texts_within(tokens: Seq<Token>, n: nat) -> bool {
    forall|i: int| 0 <= i < tokens.len() ==> token_text_len(#[trigger] tokens[i]) <= n
}

/// The nodes of `pre` in front of those of `r` (an error stays an error).
pub open spec fn cat_nodes(pre: Seq<NodeView>, r: Result<(Seq<NodeView>, int), Seq<char>>) -> Result<(Seq<NodeView>, int), Seq<char>> {
    match r {
        Ok((ns, q)) => Ok((pre + ns, q)),
        Err(m) => Err(m),
    }
}

/// The attributes of `pre` in front of those of `r` (an error stays an error).
pub open spec fn cat_attrs(pre: Seq<AttrView>, r: Result<(Seq<AttrView>, int, bool), Seq<char>>) -> Result<(Seq<AttrView>, int, bool), Seq<char>> {
    match r {
        Ok((attrs, q, sc)) => Ok((pre + attrs, q, sc)),
        Err(m) => Err(m),
    }
}

proof fn lemma_nodes_push(v: Seq<RsxNode>, n: RsxNode, r: Result<(Seq<NodeView>, int), Seq<char>>)
    ensures
        nodes_view(v.push(n)) == nodes_view(v).push(node_view(n)),
        cat_nodes(nodes_view(v.push(n)), r) == cat_nodes(nodes_view(v), cons_nodes(node_view(n), r)),
{
    assert(v.push(n).drop_last() =~= v);
    if let Ok((ns, q)) = r {
        assert(nodes_view(v).push(node_view(n)) + ns =~= nodes_view(v) + (seq![node_view(n)] + ns));
    }
}

proof fn lemma_attrs_push(v: Seq<RsxAttr>, a: RsxAttr, r: Result<(Seq<AttrView>, int, bool), Seq<char>>)
    ensures
        cat_attrs(attrs_view(v.push(a)), r) == cat_attrs(attrs_view(v), cons_attrs(attr_view(a), r)),
{
    assert(attrs_view(v.push(a)) =~= attrs_view(v).push(attr_view(a)));
    if let Ok((xs, q, sc)) = r {
        assert(attrs_view(v).push(attr_view(a)) + xs =~= attrs_view(v) + (seq![attr_view(a)] + xs));
    }
}

proof fn lemma_toks_view(ts: Seq<Token>)
    ensures
        toks_view(ts).len() == ts.len(),
        forall|i: int| 0 <= i < ts.len() ==> #[trigger] toks_view(ts)[i] == tok_view(ts[i]),
{
}

struct Parser<'a> {
    tokens: &'a Vec<Token>,
    pos: usize,
    file: PathBuf,
}

impl<'a> Parser<'a> {
    spec fn rest(&self) -> int {
        self.tokens@.len() - self.pos
    }

    spec fn ts(&self) -> Seq<TokView> {
        toks_view(self.tokens@)
    }

    fn error(&self, msg: &str) -> (e: CompileError)
        ensures
            e.file == self.file,
            e.message@ == msg@,
            e.line == 0,
            e.col == 0,
    {
        CompileError { file: clone_path(&self.file), line: 0, col: 0, message: msg.to_owned() }
    }

    /// Parses nodes until the tokens end or a close tag comes.
    fn parse_nodes(&mut self, fuel: usize) -> (r: Result<Vec<RsxNode>, CompileError>)
        requires
            old(self).pos <= old(self).tokens@.len(),
            texts_within(old(self).tokens@, fuel as nat),
        ensures
            final(self).pos <= final(self).tokens@.len(),
            final(self).tokens == old(self).tokens,
            final(self).file == old(self).file,
            final(self).pos >= old(self).pos,
            r matches Err(e) ==> e.file == old(self).file,
            match rsx_nodes(old(self).ts(), old(self).pos as int, fuel as nat) {
                Ok((ns, q)) => r matches Ok(v) && nodes_view(v@) == ns && final(self).pos == q,
                Err(m) => r matches Err(e) && e.message@ == m,
            },
        decreases fuel, old(self).rest(), 2int,
    {
        let mut nodes: Vec<RsxNode> = Vec::new();
        proof { lemma_toks_view(self.tokens@); }
        proof { assert(Seq::<NodeView>::empty() + Seq::<NodeView>::empty() =~= Seq::<NodeView>::empty()); }
        while self.pos < self.tokens.len()
            invariant
                self.pos <= self.tokens@.len(),
                self.tokens == old(self).tokens,
                self.file == old(self).file,
                self.pos >= old(self).pos,
                texts_within(self.tokens@, fuel as nat),
                rsx_nodes(old(self).ts(), old(self).pos as int, fuel as nat)
                    == cat_nodes(nodes_view(nodes@), rsx_nodes(self.ts(), self.pos as int, fuel as nat)),
            ensures
                rsx_nodes(self.ts(), self.pos as int, fuel as nat) == Ok::<(Seq<NodeView>, int), Seq<char>>((Seq::empty(), self.pos as int)),
            decreases self.rest(),
        {
            match &self.tokens[self.pos] {
                Token::CloseTag(_) => {
                    break;
                },
                _ => {},
            }
            let ghost p0 = self.pos as int;
            match self.parse_node(fuel) {
                Ok(node) => {
                    proof {
                        lemma_nodes_push(nodes@, node, rsx_nodes(self.ts(), self.pos as int, fuel as nat));
                    }
                    nodes.push(node);
                },
                Err(e) => {
                    return Err(e);
                },
            }
        }
        proof { assert(nodes_view(nodes@) + Seq::<NodeView>::empty() =~= nodes_view(nodes@)); }
        Ok(nodes)
    }

    /// Parses one node.
    fn parse_node(&mut self, fuel: usize) -> (r: Result<RsxNode, CompileError>)
        requires
            old(self).pos < old(self).tokens@.len(),
            texts_within(old(self).tokens@, fuel as nat),
        ensures
            final(self).pos <= final(self).tokens@.len(),
            final(self).tokens == old(self).tokens,
            final(self).file == old(self).file,
            r is Ok ==> final(self).pos > old(self).pos,
            final(self).pos >= old(self).pos,
            r matches Err(e) ==> e.file == old(self).file,
            match rsx_node(old(self).ts(), old(self).pos as int, fuel as nat) {
                Ok((n, q)) => r matches Ok(v) && node_view(v) == n && final(self).pos == q,
                Err(m) => r matches Err(e) && e.message@ == m,
            },
        decreases fuel, old(self).rest(), 1int,
    {
        let _len = self.tokens.len();
        proof { lemma_toks_view(self.tokens@); }
        match &self.tokens[self.pos] {
            Token::OpenTag(_) => self.parse_element(fuel),
            Token::TextLiteral(s) => {
                let t = s.clone();
                self.pos += 1;
                Ok(RsxNode::Text(t))
            },
            Token::Expression(s) => {
                let e = s.clone();
                proof { assert(token_text_len(self.tokens@[self.pos as int]) <= fuel); }
                self.pos += 1;
                self.parse_expression(e, fuel)
            },
            _ => Err(self.error("unexpected token")),
        }
    }

    /// Recognises `cond ? <a> : <b>` and `cond && <rsx>` in an expression;
    /// anything else is a plain expression.
    fn parse_expression(&self, expr: String, fuel: usize) -> (r: Result<RsxNode, CompileError>)
        requires
            expr@.len() <= fuel,
        ensures
            r matches Err(e) ==> e.file == self.file,
            match rsx_expr(expr@, fuel as nat) {
                Ok(n) => r matches Ok(v) && node_view(v) == n,
                Err(m) => r matches Err(e) && e.message@ == m,
            },
        decreases fuel, 0int, 1int,
    {
        let cs = chars_of(expr.as_str());
        let len = cs.len();
        if let Some(q) = find_top_level(&cs, Scan::QuestionRsx) {
            let rest = string_of(&cs, q + 1, len);
            let rcs = chars_of(rest.as_str());
            let c_opt = find_ternary_colon(&rcs);
            let c = match c_opt {
                Some(c) => c,
                None => {
                    return Err(self.error("invalid ternary expression: expected `:`"));
                },
            };
            let (cl, ch) = trim_bounds(&cs, 0, q);
            let (tl, th) = trim_bounds(&rcs, 0, c);
            let (fl, fh) = trim_bounds(&rcs, c + 1, rcs.len());
            if cl == ch || tl == th || fl == fh {
                return Err(self.error("invalid ternary expression: expected `cond ? a : b`"));
            }
            let true_str = string_of(&rcs, tl, th);
            let false_str = string_of(&rcs, fl, fh);
            let if_true = match self.parse_inline_rsx(true_str.as_str(), fuel) {
                Ok(v) => v,
                Err(e) => return Err(e),
            };
            let if_false = match self.parse_inline_rsx(false_str.as_str(), fuel) {
                Ok(v) => v,
                Err(e) => return Err(e),
            };
            return Ok(RsxNode::Ternary { condition: string_of(&cs, cl, ch), if_true, if_false });
        }
        if let Some(sp) = find_top_level(&cs, Scan::AndRsx) {
            let (cl, ch) = trim_bounds(&cs, 0, sp);
            let (jl, jh) = trim_bounds(&cs, sp + 2, len);
            if cl == ch || jl == jh {
                return Err(self.error("invalid conditional expression: expected `cond && <rsx>`"));
            }
            let jsx = string_of(&cs, jl, jh);
            let body = match self.parse_inline_rsx(jsx.as_str(), fuel) {
                Ok(v) => v,
                Err(e) => return Err(e),
            };
            return Ok(RsxNode::CondAnd { condition: string_of(&cs, cl, ch), body });
        }
        if let Some(q) = find_top_level(&cs, Scan::Question) {
            let (cl, ch) = trim_bounds(&cs, 0, q);
            if cl == ch {
                return Err(self.error("invalid ternary expression: missing condition before `?`"));
            }
        }
        if let Some(a) = find_top_level(&cs, Scan::And) {
            let (cl, ch) = trim_bounds(&cs, 0, a);
            let (rl, rh) = trim_bounds(&cs, a + 2, len);
            if cl == ch || rl == rh {
                return Err(self.error("invalid conditional expression: expected `cond && <expr>`"));
            }
        }
        Ok(RsxNode::Expr(expr))
    }

    /// Tokenizes and parses a piece of RSX taken from an expression.
    fn parse_inline_rsx(&self, src: &str, fuel: usize) -> (r: Result<Vec<RsxNode>, CompileError>)
        requires
            src@.len() < fuel,
        ensures
            r matches Err(e) ==> e.file == self.file,
            match rsx_inline(src@, fuel as nat) {
                Ok(ns) => r matches Ok(v) && nodes_view(v@) == ns,
                Err(m) => r matches Err(e) && e.message@ == m,
            },
        decreases fuel, 0int, 0int,
    {
        let tokens = match tokenize(src, clone_path(&self.file)) {
            Ok(t) => t,
            Err(e) => return Err(e),
        };
        let mut sub = Parser { tokens: &tokens, pos: 0, file: clone_path(&self.file) };
        sub.parse_nodes(src.unicode_len())
    }

    /// Parses `<tag attrs...>children...</tag>` or `<tag attrs... />`.
    fn parse_element(&mut self, fuel: usize) -> (r: Result<RsxNode, CompileError>)
        requires
            old(self).pos < old(self).tokens@.len(),
            texts_within(old(self).tokens@, fuel as nat),
        ensures
            final(self).pos <= final(self).tokens@.len(),
            final(self).tokens == old(self).tokens,
            final(self).file == old(self).file,
            r is Ok ==> final(self).pos > old(self).pos,
            final(self).pos >= old(self).pos,
            r matches Err(e) ==> e.file == old(self).file,
            match rsx_element(old(self).ts(), old(self).pos as int, fuel as nat) {
                Ok((n, q)) => r matches Ok(v) && node_view(v) == n && final(self).pos == q,
                Err(m) => r matches Err(e) && e.message@ == m,
            },
        decreases fuel, old(self).rest(), 0int,
    {
        let ghost p0 = self.pos as int;
        let _len = self.tokens.len();
        proof { lemma_toks_view(self.tokens@); }
        let tag = match &self.tokens[self.pos] {
            Token::OpenTag(name) => name.clone(),
            _ => {
                return Err(self.error("expected opening tag"));
            },
        };
        self.pos += 1;
        let mut attrs: Vec<RsxAttr> = Vec::new();
        proof { assert(Seq::<AttrView>::empty() + Seq::<AttrView>::empty() =~= Seq::<AttrView>::empty()); }
        let mut self_closing = false;
        loop
            invariant_except_break
                attrs_parse(self.ts(), p0 + 1) == cat_attrs(attrs_view(attrs@), attrs_parse(self.ts(), self.pos as int)),
                !self_closing,
            invariant
                self.pos <= self.tokens@.len(),
                self.tokens == old(self).tokens,
                self.file == old(self).file,
                self.pos > old(self).pos,
                p0 == old(self).pos,
                texts_within(self.tokens@, fuel as nat),
                0 <= p0 < self.ts().len(),
                self.ts()[p0] == TokView::OpenTag(tag@),
            ensures
                attrs_parse(self.ts(), p0 + 1) == Ok::<(Seq<AttrView>, int, bool), Seq<char>>((attrs_view(attrs@), self.pos as int, self_closing)),
            decreases self.rest(),
        {
            proof { lemma_toks_view(self.tokens@); }
            if self.pos >= self.tokens.len() {
                return Err(self.error("unexpected token in tag attributes"));
            }
            let ghost q0 = self.pos as int;
            match &self.tokens[self.pos] {
                Token::AttrName(n) => {
                    let name = n.clone();
                    self.pos += 1;
                    if self.pos >= self.tokens.len() {
                        return Err(self.error("expected '=' after attribute name"));
                    }
                    match &self.tokens[self.pos] {
                        Token::AttrEquals => {},
                        _ => {
                            self.pos += 1;
                            return Err(self.error("expected '=' after attribute name"));
                        },
                    }
                    self.pos += 1;
                    if self.pos >= self.tokens.len() {
                        return Err(self.error("expected attribute value"));
                    }
                    let value = match &self.tokens[self.pos] {
                        Token::AttrValue(v) => RsxAttrValue::Literal(v.clone()),
                        Token::AttrExpr(v) => RsxAttrValue::Expr(v.clone()),
                        _ => {
                            self.pos += 1;
                            return Err(self.error("expected attribute value"));
                        },
                    };
                    self.pos += 1;
                    let a = RsxAttr { name, value };
                    proof { lemma_attrs_push(attrs@, a, attrs_parse(self.ts(), self.pos as int)); }
                    attrs.push(a);
                },
                Token::SelfCloseEnd => {
                    self.pos += 1;
                    self_closing = true;
                    proof { assert(attrs_view(attrs@) + Seq::<AttrView>::empty() =~= attrs_view(attrs@)); }
                    break;
                },
                Token::TagEnd => {
                    self.pos += 1;
                    proof { assert(attrs_view(attrs@) + Seq::<AttrView>::empty() =~= attrs_view(attrs@)); }
                    break;
                },
                _ => {
                    return Err(self.error("unexpected token in tag attributes"));
                },
            }
        }
        if self_closing {
            return Ok(RsxNode::Element { tag, attrs, children: Vec::new(), self_closing: true });
        }
        let children = match self.parse_nodes(fuel) {
            Ok(c) => c,
            Err(e) => return Err(e),
        };
        if self.pos >= self.tokens.len() {
            return Err(self.error("expected closing tag"));
        }
        match &self.tokens[self.pos] {
            Token::CloseTag(close_name) => {
                if !str_eq(close_name.as_str(), tag.as_str()) {
                    self.pos += 1;
                    return Err(self.error("mismatched closing tag"));
                }
            },
            _ => {
                self.pos += 1;
                return Err(self.error("expected closing tag"));
            },
        }
        self.pos += 1;
        Ok(RsxNode::Element { tag, attrs, children, self_closing: false })
    }
}

/// The longest text carried by a token.
fn longest_text(tokens: &Vec<Token>) -> (r: usize)
    ensures
        texts_within(tokens@, r as nat),
        r == text_bound(toks_view(tokens@)),
{
    let mut m: usize = 0;
    let mut i: usize = 0;
    while i < tokens.len()
        invariant
            i <= tokens@.len(),
            forall|k: int| 0 <= k < i ==> token_text_len(#[trigger] tokens@[k]) <= m,
            m == text_bound(toks_view(tokens@.subrange(0, i as int))),
        decreases tokens@.len() - i,
    {
        let l = match &tokens[i] {
            Token::OpenTag(s) | Token::CloseTag(s) | Token::AttrName(s) | Token::AttrValue(s)
            | Token::AttrExpr(s) | Token::TextLiteral(s) | Token::Expression(s) => s.unicode_len(),
            _ => 0,
        };
        proof {
            assert(toks_view(tokens@.subrange(0, i + 1)).drop_last() =~= toks_view(tokens@.subrange(0, i as int)));
            assert(toks_view(tokens@.subrange(0, i + 1)).last() == tok_view(tokens@[i as int]));
        }
        if l > m {
            m = l;
        }
        i += 1;
    }
    proof { assert(tokens@.subrange(0, i as int) =~= tokens@); }
    m
}

/// Parse a token stream into a list of RSX nodes.
pub fn parse(tokens: &Vec<Token>, file: PathBuf) -> (r: Result<Vec<RsxNode>, CompileError>)
    ensures
        r matches Err(e) ==> e.file == file,
        tokens@.len() == 0 ==> (r matches Ok(v) && v@.len() == 0),
        match rsx_parse(toks_view(tokens@)) {
            Ok(ns) => r matches Ok(v) && nodes_view(v@) == ns,
            Err(m) => r matches Err(e) && e.message@ == m,
        },
{
    let fuel = longest_text(tokens);
    let mut p = Parser { tokens, pos: 0, file };
    p.parse_nodes(fuel)
}

} // verus!
