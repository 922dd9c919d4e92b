//! RSX tokenizer: converts RSX source text into a stream of tokens.

use vstd::prelude::*;
use std::path::PathBuf;
use super::{CompileError, clone_path};
use crate::text::{chars_of, string_of, trim_bounds, trimmed, utf8_len};

verus! {

/// A token of an RSX body.
#[derive(Debug, PartialEq, Eq)]
pub enum Token {
    /// `<div`: opening tag name
    OpenTag(String),
    /// `</div>`: closing tag
    CloseTag(String),
    /// `/>`
    SelfCloseEnd,
    /// `>`
    TagEnd,
    /// Attribute name (e.g. `class`, `href`)
    AttrName(String),
    /// `=`
    AttrEquals,
    /// `"value"`: quoted attribute value (without quotes)
    AttrValue(String),
    /// `{expr}`: brace attribute expression (without outer braces)
    AttrExpr(String),
    /// `"hello"`: string literal as a child node
    TextLiteral(String),
    /// `{expr()}`: Rust expression (brace-matched, without outer braces, trimmed)
    Expression(String),
}

/// RSX white space.
pub open spec fn is_rsx_ws(c: char) -> bool {
    c == ' ' || c == '\t' || c == '\n' || c == '\r'
}

/// An ASCII letter.
pub open spec fn is_alpha(c: char) -> bool {
    ('a' <= c <= 'z') || ('A' <= c <= 'Z')
}

/// A character of a tag or attribute name.
pub open spec fn is_name_char(c: char) -> bool {
    is_alpha(c) || ('0' <= c <= '9') || c == '_' || c == '-'
}

/// Every character of `s` is a name character.
pub open spec fn all_name_chars(s: Seq<char>) -> bool {
    forall|i: int| 0 <= i < s.len() ==> is_name_char(#[trigger] s[i])
}

/// Names in the token are made of name characters.
pub open spec fn token_names_ok(t: Token) -> bool {
    match t {
        Token::OpenTag(n) => n@.len() > 0 && all_name_chars(n@),
        Token::CloseTag(n) => all_name_chars(n@),
        Token::AttrName(n) => n@.len() > 0 && all_name_chars(n@),
        _ => true,
    }
}

/// The length of the text a token carries (0 for punctuation).
pub open spec fn token_text_len(t: Token) -> nat {
    match t {
        Token::OpenTag(n) => n@.len(),
        Token::CloseTag(n) => n@.len(),
        Token::AttrName(n) => n@.len(),
        Token::AttrValue(n) => n@.len(),
        Token::AttrExpr(n) => n@.len(),
        Token::TextLiteral(n) => n@.len(),
        Token::Expression(n) => n@.len(),
        _ => 0,
    }
}

/// The messages the tokenizer can fail with.
pub open spec fn tokenizer_message(m: Seq<char>) -> bool {
    m == "unterminated string literal"@ || m == "unterminated brace expression"@
        || m == "unexpected character in tag"@ || m == "expected '>' in closing tag"@
        || m == "unexpected character in RSX body"@
}

/// The 1-based line of position `p` of `s`.
pub open spec fn line_at(s: Seq<char>, p: int) -> int
    decreases p,
{
    if p <= 0 { 1 } else { line_at(s, p - 1) + (if s[p - 1] == '\n' { 1int } else { 0 }) }
}

/// The 1-based column (in bytes) of position `p` of `s`.
pub open spec fn col_at(s: Seq<char>, p: int) -> int
    decreases p,
{
    if p <= 0 { 1 } else if s[p - 1] == '\n' { 1 } else { col_at(s, p - 1) + utf8_len(s[p - 1]) }
}

/// What a token says, as plain values.
pub enum TokView {
    OpenTag(Seq<char>),
    CloseTag(Seq<char>),
    SelfCloseEnd,
    TagEnd,
    AttrName(Seq<char>),
    AttrEquals,
    AttrValue(Seq<char>),
    AttrExpr(Seq<char>),
    TextLiteral(Seq<char>),
    Expression(Seq<char>),
}

/// The view of a token.
pub open spec fn tok_view(t: Token) -> TokView {
    match t {
        Token::OpenTag(n) => TokView::OpenTag(n@),
        Token::CloseTag(n) => TokView::CloseTag(n@),
        Token::SelfCloseEnd => TokView::SelfCloseEnd,
        Token::TagEnd => TokView::TagEnd,
        Token::AttrName(n) => TokView::AttrName(n@),
        Token::AttrEquals => TokView::AttrEquals,
        Token::AttrValue(n) => TokView::AttrValue(n@),
        Token::AttrExpr(n) => TokView::AttrExpr(n@),
        Token::TextLiteral(n) => TokView::TextLiteral(n@),
        Token::Expression(n) => TokView::Expression(n@),
    }
}

/// The views of tokens.
pub open spec fn toks_view(ts: Seq<Token>) -> Seq<TokView> {
    ts.map_values(|t: Token| tok_view(t))
}

/// The first position at or after `p` that is not RSX white space (or the end).
pub open spec fn skip_ws(s: Seq<char>, p: int) -> int
    decreases s.len() - p,
{
    if p < 0 || p >= s.len() { p } else if is_rsx_ws(s[p]) { skip_ws(s, p + 1) } else { p }
}

/// The first position at or after `p` that is not a name character (or the end).
pub open spec fn name_end(s: Seq<char>, p: int) -> int
    decreases s.len() - p,
{
    if p < 0 || p >= s.len() { p } else if is_name_char(s[p]) { name_end(s, p + 1) } else { p }
}

/// The closing quote of a literal whose contents start at `p` (a backslash
/// escapes the character after it), if it closes.
pub open spec fn quote_close(s: Seq<char>, p: int) -> Option<int>
    decreases s.len() - p,
{
    if p < 0 || p >= s.len() {
        None
    } else if s[p] == '\\' {
        if s.len() - p >= 2 { quote_close(s, p + 2) } else { None }
    } else if s[p] == '"' {
        Some(p)
    } else {
        quote_close(s, p + 1)
    }
}

/// Where a literal inside a brace expression whose contents start at `p` ends:
/// after its closing quote, or at the end.
pub open spec fn skip_literal(s: Seq<char>, p: int) -> int
    decreases s.len() - p,
{
    if p < 0 || p >= s.len() {
        s.len() as int
    } else if s[p] == '\\' {
        if s.len() - p >= 2 { skip_literal(s, p + 2) } else { s.len() as int }
    } else if s[p] == '"' {
        p + 1
    } else {
        skip_literal(s, p + 1)
    }
}

pub proof fn lemma_skip_literal(s: Seq<char>, p: int)
    requires
        0 <= p,
    ensures
        p < skip_literal(s, p) || (p >= s.len() && skip_literal(s, p) == s.len()),
        skip_literal(s, p) <= s.len() || p > s.len(),
    decreases s.len() - p,
{
    if p < s.len() {
        if s[p] == '\\' {
            if s.len() - p >= 2 {
                lemma_skip_literal(s, p + 2);
            }
        } else if s[p] != '"' {
            lemma_skip_literal(s, p + 1);
        }
    }
}

/// The `}` that closes a brace expression whose contents start at `p` with
/// `depth` braces open (literals skipped), if it closes.
pub open spec fn brace_close(s: Seq<char>, p: int, depth: int) -> Option<int>
    decreases s.len() - p,
{
    if p < 0 || p >= s.len() {
        None
    } else if s[p] == '"' {
        proof { lemma_skip_literal(s, p + 1); }
        brace_close(s, skip_literal(s, p + 1), depth)
    } else if s[p] == '{' {
        brace_close(s, p + 1, depth + 1)
    } else if s[p] == '}' {
        if depth <= 1 { Some(p) } else { brace_close(s, p + 1, depth - 1) }
    } else {
        brace_close(s, p + 1, depth)
    }
}

/// A token followed by the rest of a tokenization (an error stays an error).
pub open spec fn then_lex(t: TokView, r: Result<Seq<TokView>, (Seq<char>, int)>) -> Result<Seq<TokView>, (Seq<char>, int)> {
    match r {
        Ok(ts) => Ok(seq![t] + ts),
        Err(e) => Err(e),
    }
}

pub proof fn lemma_quote_close(s: Seq<char>, p: int)
    requires
        0 <= p,
    ensures
        quote_close(s, p) matches Some(c) ==> p <= c < s.len() && s[c] == '"',
    decreases s.len() - p,
{
    if 0 <= p < s.len() {
        if s[p] == '\\' {
            if s.len() - p >= 2 {
                lemma_quote_close(s, p + 2);
            }
        } else if s[p] != '"' {
            lemma_quote_close(s, p + 1);
        }
    }
}

pub proof fn lemma_brace_close(s: Seq<char>, p: int, depth: int)
    requires
        0 <= p,
    ensures
        brace_close(s, p, depth) matches Some(c) ==> p <= c < s.len(),
    decreases s.len() - p,
{
    if 0 <= p < s.len() {
        if s[p] == '"' {
            lemma_skip_literal(s, p + 1);
            lemma_brace_close(s, skip_literal(s, p + 1), depth);
        } else if s[p] == '{' {
            lemma_brace_close(s, p + 1, depth + 1);
        } else if s[p] == '}' {
            if depth > 1 {
                lemma_brace_close(s, p + 1, depth - 1);
            }
        } else {
            lemma_brace_close(s, p + 1, depth);
        }
    }
}

pub proof fn lemma_skip_ws(s: Seq<char>, p: int)
    requires
        0 <= p <= s.len(),
    ensures
        p <= skip_ws(s, p) <= s.len(),
    decreases s.len() - p,
{
    if p < s.len() && is_rsx_ws(s[p]) {
        lemma_skip_ws(s, p + 1);
    }
}

pub proof fn lemma_name_end(s: Seq<char>, p: int)
    requires
        0 <= p <= s.len(),
    ensures
        p <= name_end(s, p) <= s.len(),
    decreases s.len() - p,
{
    if p < s.len() && is_name_char(s[p]) {
        lemma_name_end(s, p + 1);
    }
}

/// The tokens of `s` from `p` on (`in_tag` inside an opening tag), or the
/// message and position of the first error.
pub open spec fn lex(s: Seq<char>, p: int, in_tag: bool) -> Result<Seq<TokView>, (Seq<char>, int)>
    decreases s.len() - p,
{
    if p < 0 || p > s.len() {
        Ok(Seq::empty())
    } else {
        proof { lemma_skip_ws(s, p); }
        let q = skip_ws(s, p);
        if q >= s.len() {
            Ok(Seq::empty())
        } else {
            let b = s[q];
            let has_next = q + 1 < s.len();
            if in_tag {
                if b == '/' && has_next && s[q + 1] == '>' {
                    then_lex(TokView::SelfCloseEnd, lex(s, q + 2, false))
                } else if b == '>' {
                    then_lex(TokView::TagEnd, lex(s, q + 1, false))
                } else if b == '=' {
                    then_lex(TokView::AttrEquals, lex(s, q + 1, true))
                } else if b == '"' {
                    proof { lemma_quote_close(s, q + 1); }
                    match quote_close(s, q + 1) {
                        None => Err(("unterminated string literal"@, s.len() as int)),
                        Some(c) => then_lex(TokView::AttrValue(s.subrange(q + 1, c)), lex(s, c + 1, true)),
                    }
                } else if b == '{' {
                    proof { lemma_brace_close(s, q + 1, 1); }
                    match brace_close(s, q + 1, 1) {
                        None => Err(("unterminated brace expression"@, s.len() as int)),
                        Some(c) => then_lex(TokView::AttrExpr(trimmed(s, q + 1, c)), lex(s, c + 1, true)),
                    }
                } else if is_alpha(b) || b == '_' {
                    proof { lemma_name_end(s, q + 1); }
                    let e = name_end(s, q);
                    then_lex(TokView::AttrName(s.subrange(q, e)), lex(s, e, true))
                } else {
                    Err(("unexpected character in tag"@, q))
                }
            } else {
                if b == '<' && has_next && s[q + 1] == '/' {
                    proof { lemma_name_end(s, q + 2); }
                    let e = name_end(s, q + 2);
                    proof { lemma_skip_ws(s, e); }
                    let w = skip_ws(s, e);
                    if !(w < s.len() && s[w] == '>') {
                        Err(("expected '>' in closing tag"@, w))
                    } else {
                        then_lex(TokView::CloseTag(s.subrange(q + 2, e)), lex(s, w + 1, false))
                    }
                } else if b == '<' && has_next && (is_alpha(s[q + 1]) || s[q + 1] == '_') {
                    proof { lemma_name_end(s, q + 1); }
                    let e = name_end(s, q + 1);
                    then_lex(TokView::OpenTag(s.subrange(q + 1, e)), lex(s, e, true))
                } else if b == '"' {
                    proof { lemma_quote_close(s, q + 1); }
                    match quote_close(s, q + 1) {
                        None => Err(("unterminated string literal"@, s.len() as int)),
                        Some(c) => then_lex(TokView::TextLiteral(s.subrange(q + 1, c)), lex(s, c + 1, false)),
                    }
                } else if b == '{' {
                    proof { lemma_brace_close(s, q + 1, 1); }
                    match brace_close(s, q + 1, 1) {
                        None => Err(("unterminated brace expression"@, s.len() as int)),
                        Some(c) => then_lex(TokView::Expression(trimmed(s, q + 1, c)), lex(s, c + 1, false)),
                    }
                } else {
                    Err(("unexpected character in RSX body"@, q))
                }
            }
        }
    }
}

/// A tokenization with the tokens `pre` in front (an error stays an error).
pub open spec fn after(pre: Seq<TokView>, r: Result<Seq<TokView>, (Seq<char>, int)>) -> Result<Seq<TokView>, (Seq<char>, int)> {
    match r {
        Ok(ts) => Ok(pre + ts),
        Err(e) => Err(e),
    }
}

proof fn lemma_after_push(pre: Seq<Token>, t: Token, r: Result<Seq<TokView>, (Seq<char>, int)>)
    ensures
        after(toks_view(pre.push(t)), r) == after(toks_view(pre), then_lex(tok_view(t), r)),
{
    assert(toks_view(pre.push(t)) =~= toks_view(pre).push(tok_view(t)));
    if let Ok(ts) = r {
        assert(toks_view(pre).push(tok_view(t)) + ts =~= toks_view(pre) + (seq![tok_view(t)] + ts));
    }
}

struct Tokenizer {
    cs: Vec<char>,
    pos: usize,
    file: PathBuf,
    tokens: Vec<Token>,
    in_tag: bool,
}

impl Tokenizer {
    spec fn ok(&self) -> bool {
        &&& self.pos <= self.cs@.len()
        &&& self.cs@.len() <= usize::MAX
        &&& forall|i: int| 0 <= i < self.tokens@.len() ==> token_names_ok(#[trigger] self.tokens@[i])
        &&& forall|i: int| 0 <= i < self.tokens@.len() ==> token_text_len(#[trigger] self.tokens@[i]) <= self.cs@.len()
    }

    fn error(&self, msg: &str) -> (e: CompileError)
        requires
            self.ok(),
        ensures
            e.file == self.file,
            e.message@ == msg@,
            e.line as int == line_at(self.cs@, self.pos as int) || e.line == usize::MAX,
            e.col as int == col_at(self.cs@, self.pos as int) || e.col == usize::MAX,
    {
        let mut line: usize = 1;
        let mut col: usize = 1;
        let mut i: usize = 0;
        let mut saturated = false;
        while i < self.pos
            invariant
                self.ok(),
                i <= self.pos,
                !saturated ==> line as int == line_at(self.cs@, i as int),
                saturated ==> line == usize::MAX,
                col as int == col_at(self.cs@, i as int) || col == usize::MAX,
            decreases self.pos - i,
        {
            if self.cs[i] == '\n' {
                if line < usize::MAX {
                    line += 1;
                } else {
                    saturated = true;
                }
                col = 1;
            } else {
                col = col.saturating_add(if (self.cs[i] as u32) < 0x80 { 1 } else if (self.cs[i] as u32) < 0x800 { 2 } else if (self.cs[i] as u32) < 0x10000 { 3 } else { 4 });
            }
            i += 1;
        }
        CompileError { file: clone_path(&self.file), line, col, message: msg.to_owned() }
    }

    fn skip_whitespace(&mut self)
        requires
            old(self).ok(),
        ensures
            final(self).ok(),
            final(self).cs == old(self).cs,
            final(self).tokens == old(self).tokens,
            final(self).in_tag == old(self).in_tag,
            final(self).file == old(self).file,
            final(self).pos >= old(self).pos,
            final(self).pos < final(self).cs@.len() ==> !is_rsx_ws(final(self).cs@[final(self).pos as int]),
            final(self).pos == skip_ws(old(self).cs@, old(self).pos as int),
    {
        while self.pos < self.cs.len()
            invariant
                self.ok(),
                self.cs == old(self).cs,
                self.tokens == old(self).tokens,
                self.in_tag == old(self).in_tag,
                self.file == old(self).file,
                self.pos >= old(self).pos,
                skip_ws(self.cs@, self.pos as int) == skip_ws(self.cs@, old(self).pos as int),
            ensures
                self.ok(),
                self.cs == old(self).cs,
                self.tokens == old(self).tokens,
                self.in_tag == old(self).in_tag,
                self.file == old(self).file,
                self.pos >= old(self).pos,
                self.pos < self.cs@.len() ==> !is_rsx_ws(self.cs@[self.pos as int]),
                self.pos == skip_ws(self.cs@, old(self).pos as int),
            decreases self.cs@.len() - self.pos,
        {
            let c = self.cs[self.pos];
            if c == ' ' || c == '\t' || c == '\n' || c == '\r' {
                self.pos += 1;
            } else {
                break;
            }
        }
    }

    fn read_ident(&mut self) -> (r: String)
        requires
            old(self).ok(),
        ensures
            final(self).ok(),
            final(self).cs == old(self).cs,
            final(self).tokens == old(self).tokens,
            final(self).in_tag == old(self).in_tag,
            final(self).file == old(self).file,
            final(self).pos >= old(self).pos,
            r@ == old(self).cs@.subrange(old(self).pos as int, final(self).pos as int),
            all_name_chars(r@),
            final(self).pos < final(self).cs@.len() ==> !is_name_char(final(self).cs@[final(self).pos as int]),
            final(self).pos == name_end(old(self).cs@, old(self).pos as int),
    {
        let start = self.pos;
        while self.pos < self.cs.len()
            invariant
                self.ok(),
                self.cs == old(self).cs,
                self.tokens == old(self).tokens,
                self.in_tag == old(self).in_tag,
                self.file == old(self).file,
                start == old(self).pos,
                self.pos >= start,
                all_name_chars(self.cs@.subrange(start as int, self.pos as int)),
                name_end(self.cs@, self.pos as int) == name_end(self.cs@, start as int),
            ensures
                self.ok(),
                self.cs == old(self).cs,
                self.tokens == old(self).tokens,
                self.in_tag == old(self).in_tag,
                self.file == old(self).file,
                self.pos >= start,
                all_name_chars(self.cs@.subrange(start as int, self.pos as int)),
                self.pos < self.cs@.len() ==> !is_name_char(self.cs@[self.pos as int]),
                self.pos == name_end(self.cs@, start as int),
            decreases self.cs@.len() - self.pos,
        {
            let c = self.cs[self.pos];
            if ('a' <= c && c <= 'z') || ('A' <= c && c <= 'Z') || ('0' <= c && c <= '9') || c == '_' || c == '-' {
                proof {
                    assert forall|i: int| 0 <= i < self.pos + 1 - start implies is_name_char(#[trigger] self.cs@.subrange(start as int, self.pos + 1)[i]) by {
                        if i < self.pos - start {
                            assert(self.cs@.subrange(start as int, self.pos + 1)[i] == self.cs@.subrange(start as int, self.pos as int)[i]);
                        }
                    }
                }
                self.pos += 1;
            } else {
                break;
            }
        }
        string_of(&self.cs, start, self.pos)
    }

    /// Reads a `"..."` literal (backslash escapes one character) starting at the quote.
    fn read_quoted_string(&mut self) -> (r: Result<String, CompileError>)
        requires
            old(self).ok(),
            old(self).pos < old(self).cs@.len(),
        ensures
            final(self).ok(),
            final(self).cs == old(self).cs,
            final(self).tokens == old(self).tokens,
            final(self).in_tag == old(self).in_tag,
            final(self).file == old(self).file,
            final(self).pos > old(self).pos,
            r matches Ok(v) ==> v@.len() <= old(self).cs@.len(),
            r matches Err(e) ==> e.message@ == "unterminated string literal"@ && e.file == old(self).file,
            match quote_close(old(self).cs@, old(self).pos + 1) {
                Some(c) => r matches Ok(v) && v@ == old(self).cs@.subrange(old(self).pos + 1, c) && final(self).pos == c + 1,
                None => r matches Err(e) && final(self).pos == old(self).cs@.len()
                    && (e.line as int == line_at(old(self).cs@, old(self).cs@.len() as int) || e.line == usize::MAX)
                    && (e.col as int == col_at(old(self).cs@, old(self).cs@.len() as int) || e.col == usize::MAX),
            },
    {
        self.pos += 1;
        let start = self.pos;
        while self.pos < self.cs.len()
            invariant
                self.ok(),
                self.cs == old(self).cs,
                self.tokens == old(self).tokens,
                self.in_tag == old(self).in_tag,
                self.file == old(self).file,
                start == old(self).pos + 1,
                self.pos >= start,
                quote_close(self.cs@, self.pos as int) == quote_close(self.cs@, start as int),
            decreases self.cs@.len() - self.pos,
        {
            if self.cs[self.pos] == '\\' {
                self.pos = if self.cs.len() - self.pos >= 2 { self.pos + 2 } else { self.cs.len() };
                continue;
            }
            if self.cs[self.pos] == '"' {
                let result = string_of(&self.cs, start, self.pos);
                self.pos += 1;
                return Ok(result);
            }
            self.pos += 1;
        }
        Err(self.error("unterminated string literal"))
    }

    /// Reads a brace-matched `{...}` (string literals skipped) starting at the brace;
    /// the result is the trimmed inside.
    fn read_brace_expression(&mut self) -> (r: Result<String, CompileError>)
        requires
            old(self).ok(),
            old(self).pos < old(self).cs@.len(),
        ensures
            final(self).ok(),
            final(self).cs == old(self).cs,
            final(self).tokens == old(self).tokens,
            final(self).in_tag == old(self).in_tag,
            final(self).file == old(self).file,
            final(self).pos > old(self).pos,
            r matches Ok(s) ==> exists|hi: int| old(self).pos < hi < final(self).pos
                && s@ == #[trigger] trimmed(old(self).cs@, old(self).pos + 1, hi),
            r matches Ok(v) ==> v@.len() <= old(self).cs@.len(),
            r matches Err(e) ==> e.message@ == "unterminated brace expression"@ && e.file == old(self).file,
            match brace_close(old(self).cs@, old(self).pos + 1, 1) {
                Some(c) => r matches Ok(v) && v@ == trimmed(old(self).cs@, old(self).pos + 1, c) && final(self).pos == c + 1,
                None => r matches Err(e) && final(self).pos == old(self).cs@.len()
                    && (e.line as int == line_at(old(self).cs@, old(self).cs@.len() as int) || e.line == usize::MAX)
                    && (e.col as int == col_at(old(self).cs@, old(self).cs@.len() as int) || e.col == usize::MAX),
            },
    {
        self.pos += 1;
        let start = self.pos;
        let mut depth: usize = 1;
        while self.pos < self.cs.len()
            invariant
                self.ok(),
                self.cs == old(self).cs,
                self.tokens == old(self).tokens,
                self.in_tag == old(self).in_tag,
                self.file == old(self).file,
                start == old(self).pos + 1,
                self.pos >= start,
                1 <= depth <= self.pos - start + 1,
                brace_close(self.cs@, self.pos as int, depth as int) == brace_close(self.cs@, start as int, 1),
            decreases self.cs@.len() - self.pos,
        {
            let c = self.cs[self.pos];
            let ghost p0 = self.pos;
            if c == '"' {
                self.pos += 1;
                while self.pos < self.cs.len()
                    invariant_except_break
                        skip_literal(self.cs@, self.pos as int) == skip_literal(self.cs@, p0 + 1),
                    invariant
                        self.pos > p0,
                        self.ok(),
                        self.cs == old(self).cs,
                        self.tokens == old(self).tokens,
                        self.in_tag == old(self).in_tag,
                        self.file == old(self).file,
                        start == old(self).pos + 1,
                        self.pos > start,
                        1 <= depth <= self.pos - start,
                        brace_close(self.cs@, p0 as int, depth as int) == brace_close(self.cs@, start as int, 1),
                        p0 < self.cs@.len() && self.cs@[p0 as int] == '"',
                    ensures
                        self.pos > p0,
                        self.ok(),
                        self.cs == old(self).cs,
                        self.tokens == old(self).tokens,
                        self.in_tag == old(self).in_tag,
                        self.file == old(self).file,
                        start == old(self).pos + 1,
                        self.pos > start,
                        1 <= depth <= self.pos - start,
                        brace_close(self.cs@, p0 as int, depth as int) == brace_close(self.cs@, start as int, 1),
                        p0 < self.cs@.len() && self.cs@[p0 as int] == '"',
                        self.pos == skip_literal(self.cs@, p0 + 1),
                    decreases self.cs@.len() - self.pos,
                {
                    if self.cs[self.pos] == '\\' {
                        self.pos = if self.cs.len() - self.pos >= 2 { self.pos + 2 } else { self.cs.len() };
                        continue;
                    }
                    if self.cs[self.pos] == '"' {
                        self.pos += 1;
                        break;
                    }
                    self.pos += 1;
                }
                continue;
            }
            if c == '{' {
                depth += 1;
            } else if c == '}' {
                depth -= 1;
                if depth == 0 {
                    let (lo, hi) = trim_bounds(&self.cs, start, self.pos);
                    let result = string_of(&self.cs, lo, hi);
                    let ghost end = self.pos as int;
                    proof { assert(result@ == trimmed(self.cs@, start as int, end)); }
                    self.pos += 1;
                    proof { assert(old(self).pos < end < self.pos); }
                    return Ok(result);
                }
            }
            self.pos += 1;
        }
        Err(self.error("unterminated brace expression"))
    }

    fn push_token(&mut self, t: Token)
        requires
            old(self).ok(),
            token_names_ok(t),
            token_text_len(t) <= old(self).cs@.len(),
        ensures
            final(self).ok(),
            final(self).tokens@ == old(self).tokens@.push(t),
            final(self).cs == old(self).cs,
            final(self).pos == old(self).pos,
            final(self).in_tag == old(self).in_tag,
            final(self).file == old(self).file,
    {
        self.tokens.push(t);
    }

    fn run(&mut self) -> (r: Result<(), CompileError>)
        requires
            old(self).ok(),
        ensures
            final(self).ok(),
            r matches Err(e) ==> tokenizer_message(e.message@) && e.file == old(self).file,
            old(self).pos >= old(self).cs@.len() ==> (r is Ok && final(self).tokens == old(self).tokens),
            final(self).cs == old(self).cs,
            match lex(old(self).cs@, old(self).pos as int, old(self).in_tag) {
                Ok(ts) => r is Ok && toks_view(final(self).tokens@) == toks_view(old(self).tokens@) + ts,
                Err((m, q)) => r matches Err(e) && e.message@ == m
                    && (e.line as int == line_at(old(self).cs@, q) || e.line == usize::MAX)
                    && (e.col as int == col_at(old(self).cs@, q) || e.col == usize::MAX),
            },
    {
        while self.pos < self.cs.len()
            invariant
                self.ok(),
                self.file == old(self).file,
                self.cs == old(self).cs,
                old(self).pos >= old(self).cs@.len() ==> self.tokens == old(self).tokens && self.pos >= self.cs@.len(),
                after(toks_view(self.tokens@), lex(self.cs@, self.pos as int, self.in_tag))
                    == after(toks_view(old(self).tokens@), lex(old(self).cs@, old(self).pos as int, old(self).in_tag)),
            decreases self.cs@.len() - self.pos,
        {
            let ghost p0 = self.pos as int;
            let ghost pre = self.tokens@;
            self.skip_whitespace();
            if self.pos < self.cs.len() {
                let b = self.cs[self.pos];
                let next: Option<char> = if self.pos + 1 < self.cs.len() { Some(self.cs[self.pos + 1]) } else { None };
                if self.in_tag {
                    if b == '/' && next == Some('>') {
                        self.pos += 2;
                        self.in_tag = false;
                        self.push_token(Token::SelfCloseEnd);
                        proof { lemma_after_push(pre, Token::SelfCloseEnd, lex(self.cs@, self.pos as int, false)); }
                    } else if b == '>' {
                        self.pos += 1;
                        self.in_tag = false;
                        self.push_token(Token::TagEnd);
                        proof { lemma_after_push(pre, Token::TagEnd, lex(self.cs@, self.pos as int, false)); }
                    } else if b == '=' {
                        self.pos += 1;
                        self.push_token(Token::AttrEquals);
                        proof { lemma_after_push(pre, Token::AttrEquals, lex(self.cs@, self.pos as int, true)); }
                    } else if b == '"' {
                        match self.read_quoted_string() {
                            Ok(val) => {
                                let tok = Token::AttrValue(val);
                                let ghost tv = tok;
                                self.push_token(tok);
                                proof { lemma_after_push(pre, tv, lex(self.cs@, self.pos as int, true)); }
                            },
                            Err(e) => return Err(e),
                        }
                    } else if b == '{' {
                        match self.read_brace_expression() {
                            Ok(expr) => {
                                let tok = Token::AttrExpr(expr);
                                let ghost tv = tok;
                                self.push_token(tok);
                                proof { lemma_after_push(pre, tv, lex(self.cs@, self.pos as int, true)); }
                            },
                            Err(e) => return Err(e),
                        }
                    } else if ('a' <= b && b <= 'z') || ('A' <= b && b <= 'Z') || b == '_' {
                        let name = self.read_ident();
                        proof { assert(name@[0] == b); }
                        let tok = Token::AttrName(name);
                        let ghost tv = tok;
                        self.push_token(tok);
                        proof { lemma_after_push(pre, tv, lex(self.cs@, self.pos as int, true)); }
                    } else {
                        return Err(self.error("unexpected character in tag"));
                    }
                } else {
                    if b == '<' && next == Some('/') {
                        self.pos += 2;
                        let name = self.read_ident();
                        self.skip_whitespace();
                        if !(self.pos < self.cs.len() && self.cs[self.pos] == '>') {
                            return Err(self.error("expected '>' in closing tag"));
                        }
                        self.pos += 1;
                        let tok = Token::CloseTag(name);
                        let ghost tv = tok;
                        self.push_token(tok);
                        proof { lemma_after_push(pre, tv, lex(self.cs@, self.pos as int, false)); }
                    } else if b == '<' && (match next {
                        Some(c) => ('a' <= c && c <= 'z') || ('A' <= c && c <= 'Z') || c == '_',
                        None => false,
                    }) {
                        self.pos += 1;
                        let name = self.read_ident();
                        proof { assert(name@.len() > 0) by { assert(name@[0] == next->0); } }
                        self.in_tag = true;
                        let tok = Token::OpenTag(name);
                        let ghost tv = tok;
                        self.push_token(tok);
                        proof { lemma_after_push(pre, tv, lex(self.cs@, self.pos as int, true)); }
                    } else if b == '"' {
                        match self.read_quoted_string() {
                            Ok(text) => {
                                let tok = Token::TextLiteral(text);
                                let ghost tv = tok;
                                self.push_token(tok);
                                proof { lemma_after_push(pre, tv, lex(self.cs@, self.pos as int, false)); }
                            },
                            Err(e) => return Err(e),
                        }
                    } else if b == '{' {
                        match self.read_brace_expression() {
                            Ok(expr) => {
                                let tok = Token::Expression(expr);
                                let ghost tv = tok;
                                self.push_token(tok);
                                proof { lemma_after_push(pre, tv, lex(self.cs@, self.pos as int, false)); }
                            },
                            Err(e) => return Err(e),
                        }
                    } else {
                        return Err(self.error("unexpected character in RSX body"));
                    }
                }
            }
        }
        proof {
            assert(toks_view(self.tokens@) + Seq::<TokView>::empty() =~= toks_view(self.tokens@));
        }
        Ok(())
    }
}

/// Tokenize an RSX function body into a list of tokens.
pub fn tokenize(source: &str, file: PathBuf) -> (r: Result<Vec<Token>, CompileError>)
    ensures
        r matches Ok(ts) ==> forall|i: int| 0 <= i < ts@.len() ==> token_names_ok(#[trigger] ts@[i]),
        r matches Ok(ts) ==> forall|i: int| 0 <= i < ts@.len() ==> token_text_len(#[trigger] ts@[i]) <= source@.len(),
        r matches Err(e) ==> tokenizer_message(e.message@) && e.file == file,
        source@.len() == 0 ==> (r matches Ok(ts) && ts@.len() == 0),
        match lex(source@, 0, false) {
            Ok(vs) => r matches Ok(ts) && toks_view(ts@) == vs,
            Err((m, q)) => r matches Err(e) && e.message@ == m
                && (e.line as int == line_at(source@, q) || e.line == usize::MAX)
                && (e.col as int == col_at(source@, q) || e.col == usize::MAX),
        },
{
    let cs = chars_of(source);
    proof { assert(cs@.len() == cs.len()); }
    let mut t = Tokenizer { cs, pos: 0, file, tokens: Vec::new(), in_tag: false };
    proof { assert(toks_view(t.tokens@) =~= Seq::<TokView>::empty()); }
    match t.run() {
        Ok(()) => {
            proof {
                if let Ok(vs) = lex(source@, 0, false) {
                    assert(Seq::<TokView>::empty() + vs =~= vs);
                }
            }
            Ok(t.tokens)
        },
        Err(e) => Err(e),
    }
}

} // verus!
