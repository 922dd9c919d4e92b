//! Scanner: finds the bodies of functions returning `Html`, `Fragment`, `Client`
//! or `Component` in `.volki` sources.

use vstd::prelude::*;
use vstd::string::StringSliceAdditionalSpecFns;
use crate::text::{string_of_bytes, bytes_as_chars, utf8_lossy, chars_of, string_of, trimmed, trim_str};
use super::semantic::{trim_text, char_pieces, texts, pieces_by_char};

verus! {

/// What an RSX function returns.
#[derive(Debug, Clone, Copy, PartialEq, Eq, Structural)]
pub enum RsxReturnType {
    Html,
    Fragment,
    Client,
    Component,
}

/// A parameter of a function signature: `name: ty`.
#[derive(Debug, PartialEq, Eq)]
pub struct FnParam {
    pub name: String,
    pub ty: String,
}

/// A function found by the scanner.
#[derive(Debug)]
pub struct RsxFunction {
    pub return_type: RsxReturnType,
    /// Byte range of `Html`, `Fragment`, `Client` or `Component` in the source.
    pub return_type_span: (usize, usize),
    /// Byte range of the body (inside the outermost braces).
    pub body_span: (usize, usize),
    /// Function name.
    pub name: Option<String>,
    /// Parameters (for Client, Component and Fragment functions; empty for Html).
    pub params: Vec<FnParam>,
}

/// A Component body split into logic (before `return`) and RSX (inside `return (...)`).
#[derive(Debug)]
pub struct ComponentBodySplit {
    pub logic_span: (usize, usize),
    pub rsx_span: (usize, usize),
}

/// An ASCII letter, digit or `_`.
pub open spec fn is_ident_byte(b: u8) -> bool {
    (0x30 <= b <= 0x39) || (0x41 <= b <= 0x5A) || (0x61 <= b <= 0x7A) || b == 0x5F
}

/// ASCII white space of source code.
pub open spec fn is_ws_byte(b: u8) -> bool {
    b == 0x20 || b == 0x09 || b == 0x0A || b == 0x0D
}

pub(crate) fn ident_byte(b: u8) -> (r: bool)
    ensures
        r == is_ident_byte(b),
{
    (0x30 <= b && b <= 0x39) || (0x41 <= b && b <= 0x5A) || (0x61 <= b && b <= 0x7A) || b == 0x5F
}

/// Where a string literal whose contents start at `j` ends: after its closing
/// quote, or at the end of `b` (a backslash escapes the byte after it).
pub open spec fn string_end(b: Seq<u8>, j: int) -> int
    decreases b.len() - j,
{
    if j >= b.len() {
        b.len() as int
    } else if b[j] == 0x5C {
        if b.len() - j >= 2 { string_end(b, j + 2) } else { b.len() as int }
    } else if b[j] == 0x22 {
        j + 1
    } else {
        string_end(b, j + 1)
    }
}

/// Where a line comment whose text starts at `j` ends: after its newline, or at
/// the end of `b`.
pub open spec fn line_comment_end(b: Seq<u8>, j: int) -> int
    decreases b.len() - j,
{
    if j >= b.len() {
        b.len() as int
    } else if b[j] == 0x0A {
        j + 1
    } else {
        line_comment_end(b, j + 1)
    }
}

/// Where a block comment whose text starts at `j` ends: after its `*/`, or at
/// the end of `b`.
pub open spec fn block_comment_end(b: Seq<u8>, j: int) -> int
    decreases b.len() - j,
{
    if b.len() - j <= 1 {
        b.len() as int
    } else if b[j] == 0x2A && b[j + 1] == 0x2F {
        j + 2
    } else {
        block_comment_end(b, j + 1)
    }
}

pub proof fn lemma_string_end(b: Seq<u8>, j: int)
    requires
        0 <= j <= b.len(),
    ensures
        j <= string_end(b, j) <= b.len(),
        j < b.len() ==> j < string_end(b, j),
    decreases b.len() - j,
{
    if j < b.len() {
        if b[j] == 0x5C {
            if b.len() - j >= 2 {
                lemma_string_end(b, j + 2);
            }
        } else if b[j] != 0x22 {
            lemma_string_end(b, j + 1);
        }
    }
}

pub proof fn lemma_line_comment_end(b: Seq<u8>, j: int)
    requires
        0 <= j <= b.len(),
    ensures
        j <= line_comment_end(b, j) <= b.len(),
    decreases b.len() - j,
{
    if j < b.len() && b[j] != 0x0A {
        lemma_line_comment_end(b, j + 1);
    }
}

pub proof fn lemma_block_comment_end(b: Seq<u8>, j: int)
    requires
        0 <= j <= b.len(),
    ensures
        j <= block_comment_end(b, j) <= b.len(),
    decreases b.len() - j,
{
    if b.len() - j > 1 && !(b[j] == 0x2A && b[j + 1] == 0x2F) {
        lemma_block_comment_end(b, j + 1);
    }
}

/// The position after the string literal opening at `start` (or the end).
pub(crate) fn skip_string(b: &[u8], start: usize) -> (r: usize)
    requires
        start < b@.len(),
    ensures
        start < r <= b@.len(),
        r == string_end(b@, start + 1),
{
    let n = b.len();
    let mut i = start + 1;
    while i < n
        invariant
            n == b@.len(),
            start < i <= n,
            string_end(b@, i as int) == string_end(b@, start + 1),
        decreases n - i,
    {
        if b[i] == 0x5C {
            i = if n - i >= 2 { i + 2 } else { n };
            continue;
        }
        if b[i] == 0x22 {
            return i + 1;
        }
        i += 1;
    }
    i
}

/// The position after the line comment starting at `start` (and its newline).
pub(crate) fn skip_line_comment(b: &[u8], start: usize) -> (r: usize)
    requires
        start + 2 <= b@.len(),
    ensures
        start < r <= b@.len(),
        r == line_comment_end(b@, start + 2),
{
    let n = b.len();
    let mut i = start + 2;
    while i < n && b[i] != 0x0A
        invariant
            n == b@.len(),
            start + 2 <= i <= n,
            line_comment_end(b@, i as int) == line_comment_end(b@, start + 2),
        decreases n - i,
    {
        i += 1;
    }
    if i < n { i + 1 } else { i }
}

/// The position after the block comment starting at `start` (or the end).
pub(crate) fn skip_block_comment(b: &[u8], start: usize) -> (r: usize)
    requires
        start + 2 <= b@.len(),
    ensures
        start < r <= b@.len(),
        r == block_comment_end(b@, start + 2),
{
    let n = b.len();
    let mut i = start + 2;
    while n - i > 1
        invariant
            n == b@.len(),
            start + 2 <= i <= n,
            block_comment_end(b@, i as int) == block_comment_end(b@, start + 2),
        decreases n - i,
    {
        if b[i] == 0x2A && b[i + 1] == 0x2F {
            return i + 2;
        }
        i += 1;
    }
    n
}

/// The first position at or after `p` that is not white space (or the end).
pub open spec fn ws_end(b: Seq<u8>, p: int) -> int
    decreases b.len() - p,
{
    if p >= b.len() || p < 0 { p } else if is_ws_byte(b[p]) { ws_end(b, p + 1) } else { p }
}

/// The first position at or after `pos` that is not white space.
fn skip_whitespace(b: &[u8], pos: usize) -> (r: usize)
    requires
        pos <= b@.len(),
    ensures
        pos <= r <= b@.len(),
        r == ws_end(b@, pos as int),
{
    let mut p = pos;
    while p < b.len() && (b[p] == 0x20 || b[p] == 0x09 || b[p] == 0x0A || b[p] == 0x0D)
        invariant
            pos <= p <= b@.len(),
            ws_end(b@, p as int) == ws_end(b@, pos as int),
        decreases b@.len() - p,
    {
        p += 1;
    }
    p
}

/// Where the byte `i` of `b` starts a line comment (`//`).
pub open spec fn line_comment_at(b: Seq<u8>, i: int) -> bool {
    b[i] == 0x2F && i + 1 < b.len() && b[i + 1] == 0x2F
}

/// Where the byte `i` of `b` starts a block comment (`/*`).
pub open spec fn block_comment_at(b: Seq<u8>, i: int) -> bool {
    b[i] == 0x2F && i + 1 < b.len() && b[i + 1] == 0x2A
}

/// The position of the `close` that brings `depth` open `open`s back to none,
/// scanning from `i` and skipping strings and comments; -1 if there is none.
pub open spec fn matching_from(b: Seq<u8>, i: int, depth: int, open: u8, close: u8) -> int
    decreases b.len() - i,
{
    if i >= b.len() || i < 0 {
        -1
    } else if b[i] == 0x22 {
        proof { lemma_string_end(b, i + 1); }
        matching_from(b, string_end(b, i + 1), depth, open, close)
    } else if line_comment_at(b, i) {
        proof { lemma_line_comment_end(b, i + 2); }
        matching_from(b, line_comment_end(b, i + 2), depth, open, close)
    } else if block_comment_at(b, i) {
        proof { lemma_block_comment_end(b, i + 2); }
        matching_from(b, block_comment_end(b, i + 2), depth, open, close)
    } else if b[i] == open {
        matching_from(b, i + 1, depth + 1, open, close)
    } else if b[i] == close {
        if depth <= 1 { i } else { matching_from(b, i + 1, depth - 1, open, close) }
    } else {
        matching_from(b, i + 1, depth, open, close)
    }
}

/// The matching closer (`close`) of the opener at `start`, skipping strings and
/// comments (`matching_from`).
fn find_matching(b: &[u8], start: usize, open: u8, close: u8) -> (r: Option<usize>)
    requires
        start < b@.len(),
    ensures
        r matches Some(i) ==> start < i < b@.len() && b@[i as int] == close,
        match r {
            Some(i) => i as int == matching_from(b@, start + 1, 1, open, close),
            None => matching_from(b@, start + 1, 1, open, close) == -1,
        },
{
    let n = b.len();
    let mut depth: usize = 1;
    let mut i = start + 1;
    while i < n
        invariant
            n == b@.len(),
            start < i <= n,
            1 <= depth <= i - start,
            matching_from(b@, i as int, depth as int, open, close) == matching_from(b@, start + 1, 1, open, close),
        decreases n - i,
    {
        let c = b[i];
        if c == 0x22 {
            i = skip_string(b, i);
            continue;
        }
        if c == 0x2F && n - i > 1 && b[i + 1] == 0x2F {
            i = skip_line_comment(b, i);
            continue;
        }
        if c == 0x2F && n - i > 1 && b[i + 1] == 0x2A {
            i = skip_block_comment(b, i);
            continue;
        }
        if c == open {
            depth += 1;
        } else if c == close {
            if depth == 1 {
                return Some(i);
            }
            depth -= 1;
        }
        i += 1;
    }
    None
}

/// The bytes of `b` at `pos` spell `w` and are not followed by an identifier byte.
pub open spec fn keyword_at(b: Seq<u8>, pos: int, w: Seq<u8>) -> bool {
    pos + w.len() <= b.len() && b.subrange(pos, pos + w.len()) == w
        && (pos + w.len() >= b.len() || !is_ident_byte(b[pos + w.len()]))
}

/// Whether the keyword `w` stands at `pos`.
fn keyword(b: &[u8], pos: usize, w: &[u8]) -> (r: bool)
    ensures
        r == keyword_at(b@, pos as int, w@),
{
    let n = b.len();
    if pos > n || n - pos < w.len() {
        return false;
    }
    let mut k: usize = 0;
    while k < w.len()
        invariant
            n == b@.len(),
            pos + w@.len() <= n,
            k <= w@.len(),
            forall|j: int| 0 <= j < k ==> b@[pos + j] == w@[j],
        decreases w@.len() - k,
    {
        if b[pos + k] != w[k] {
            proof { assert(b@.subrange(pos as int, pos + w@.len())[k as int] != w@[k as int]); }
            return false;
        }
        k += 1;
    }
    proof { assert(b@.subrange(pos as int, pos + w@.len()) =~= w@); }
    let end = pos + w.len();
    end >= n || !ident_byte(b[end])
}

/// The return type named at `pos` (`Html`, `Fragment`, `Client` or `Component`
/// as a whole word), and the position after its name.
pub open spec fn return_type_at(b: Seq<u8>, pos: int) -> Option<(RsxReturnType, int)> {
    if keyword_at(b, pos, seq![0x48u8, 0x74, 0x6d, 0x6c]) {
        Some((RsxReturnType::Html, pos + 4))
    } else if keyword_at(b, pos, seq![0x46u8, 0x72, 0x61, 0x67, 0x6d, 0x65, 0x6e, 0x74]) {
        Some((RsxReturnType::Fragment, pos + 8))
    } else if keyword_at(b, pos, seq![0x43u8, 0x6c, 0x69, 0x65, 0x6e, 0x74]) {
        Some((RsxReturnType::Client, pos + 6))
    } else if keyword_at(b, pos, seq![0x43u8, 0x6f, 0x6d, 0x70, 0x6f, 0x6e, 0x65, 0x6e, 0x74]) {
        Some((RsxReturnType::Component, pos + 9))
    } else {
        None
    }
}

/// The return type named at `pos`, and the position after its name.
fn match_return_type(b: &[u8], pos: usize) -> (r: Option<(RsxReturnType, usize)>)
    ensures
        match r {
            Some((t, e)) => return_type_at(b@, pos as int) == Some((t, e as int)),
            None => return_type_at(b@, pos as int) is None,
        },
        r matches Some((t, e)) ==> pos < e <= b@.len() && keyword_at(b@, pos as int, b@.subrange(pos as int, e as int)),
        r matches Some((RsxReturnType::Html, e)) ==> e == pos + 4,
{
    let n = b.len();
    let html: [u8; 4] = [0x48u8, 0x74, 0x6d, 0x6c];
    let fragment: [u8; 8] = [0x46u8, 0x72, 0x61, 0x67, 0x6d, 0x65, 0x6e, 0x74];
    let client: [u8; 6] = [0x43u8, 0x6c, 0x69, 0x65, 0x6e, 0x74];
    let component: [u8; 9] = [0x43u8, 0x6f, 0x6d, 0x70, 0x6f, 0x6e, 0x65, 0x6e, 0x74];
    proof {
        assert(html@ =~= seq![0x48u8, 0x74, 0x6d, 0x6c]);
        assert(fragment@ =~= seq![0x46u8, 0x72, 0x61, 0x67, 0x6d, 0x65, 0x6e, 0x74]);
        assert(client@ =~= seq![0x43u8, 0x6c, 0x69, 0x65, 0x6e, 0x74]);
        assert(component@ =~= seq![0x43u8, 0x6f, 0x6d, 0x70, 0x6f, 0x6e, 0x65, 0x6e, 0x74]);
    }
    if keyword(b, pos, &html) {
        proof { assert(pos + 4 <= n); }
        return Some((RsxReturnType::Html, pos + 4));
    }
    if keyword(b, pos, &fragment) {
        proof { assert(pos + 8 <= n); }
        return Some((RsxReturnType::Fragment, pos + 8));
    }
    if keyword(b, pos, &client) {
        proof { assert(pos + 6 <= n); }
        return Some((RsxReturnType::Client, pos + 6));
    }
    if keyword(b, pos, &component) {
        proof { assert(pos + 9 <= n); }
        return Some((RsxReturnType::Component, pos + 9));
    }
    None
}

/// Walking back from `p` over white space: where it stops.
pub open spec fn ws_back(b: Seq<u8>, p: int) -> int
    decreases p,
{
    if p <= 0 { p } else if is_ws_byte(b[p - 1]) { ws_back(b, p - 1) } else { p }
}

/// Walking back from `k` with `depth` unclosed `)`: the `(` that opens the
/// first of them, or -1.
pub open spec fn open_back(b: Seq<u8>, k: int, depth: int) -> int
    decreases k,
{
    if k <= 0 {
        -1
    } else if b[k - 1] == 0x29 {
        open_back(b, k - 1, depth + 1)
    } else if b[k - 1] == 0x28 {
        if depth <= 1 { k - 1 } else { open_back(b, k - 1, depth - 1) }
    } else {
        open_back(b, k - 1, depth)
    }
}

/// The `(` and `)` of the parameter list that ends, before white space, at the
/// arrow at `arrow`.
pub open spec fn param_parens(b: Seq<u8>, arrow: int) -> Option<(int, int)> {
    let pos = ws_back(b, arrow);
    if pos <= 0 || b[pos - 1] != 0x29 {
        None
    } else {
        let o = open_back(b, pos - 1, 1);
        if o < 0 { None } else { Some((o, pos - 1)) }
    }
}

/// Walking back from `p` over spaces and tabs: where it stops.
pub open spec fn blank_back(b: Seq<u8>, p: int) -> int
    decreases p,
{
    if p <= 0 { p } else if b[p - 1] == 0x20 || b[p - 1] == 0x09 { blank_back(b, p - 1) } else { p }
}

/// Walking back from `p` over identifier bytes: where it stops.
pub open spec fn ident_back(b: Seq<u8>, p: int) -> int
    decreases p,
{
    if p <= 0 { p } else if is_ident_byte(b[p - 1]) { ident_back(b, p - 1) } else { p }
}

/// The identifier just before `open` (spaces and tabs skipped), if any.
pub open spec fn name_text(b: Seq<u8>, open: int) -> Option<Seq<char>> {
    let e = blank_back(b, open);
    let a = ident_back(b, e);
    if a == e { None } else { Some(bytes_as_chars(b, a, e)) }
}

/// The name of the function whose signature ends at the arrow at `arrow`.
pub open spec fn fn_name_at(b: Seq<u8>, arrow: int) -> Option<Seq<char>> {
    match param_parens(b, arrow) {
        None => None,
        Some((o, _c)) => name_text(b, o),
    }
}

/// Walking back from the arrow at `arrow`: the positions of `(` and `)` around the
/// parameter list, when the signature ends with one (`param_parens`).
fn find_param_parens(b: &[u8], arrow: usize) -> (r: Option<(usize, usize)>)
    requires
        arrow <= b@.len(),
    ensures
        r matches Some((o, c)) ==> o < c < arrow && b@[o as int] == 0x28 && b@[c as int] == 0x29,
        match r {
            Some((o, c)) => param_parens(b@, arrow as int) == Some((o as int, c as int)),
            None => param_parens(b@, arrow as int) is None,
        },
{
    let mut pos = arrow;
    while pos > 0 && (b[pos - 1] == 0x20 || b[pos - 1] == 0x09 || b[pos - 1] == 0x0A || b[pos - 1] == 0x0D)
        invariant
            pos <= arrow <= b@.len(),
            ws_back(b@, pos as int) == ws_back(b@, arrow as int),
        decreases pos,
    {
        pos -= 1;
    }
    if pos == 0 || b[pos - 1] != 0x29 {
        return None;
    }
    proof { assert(ws_back(b@, pos as int) == pos); }
    let close = pos - 1;
    let mut depth: usize = 1;
    let mut open = close;
    while open > 0
        invariant
            open <= close < arrow <= b@.len(),
            b@[close as int] == 0x29,
            depth >= 1,
            depth <= close - open + 1,
            open_back(b@, open as int, depth as int) == open_back(b@, close as int, 1),
            close + 1 == ws_back(b@, arrow as int),
        decreases open,
    {
        open -= 1;
        if b[open] == 0x29 {
            depth += 1;
        } else if b[open] == 0x28 {
            if depth == 1 {
                return Some((open, close));
            }
            depth -= 1;
        }
    }
    None
}

/// The identifier just before `open` (spaces and tabs skipped), if any
/// (`name_text`).
fn name_before(b: &[u8], open: usize) -> (r: Option<String>)
    requires
        open <= b@.len(),
    ensures
        match r {
            Some(s) => name_text(b@, open as int) == Some(s@),
            None => name_text(b@, open as int) is None,
        },
        r matches Some(s) ==> s@.len() > 0 && (exists|a: int, e: int| 0 <= a < e <= open
            && s@ == bytes_as_chars(b@, a, e)
            && (forall|k: int| a <= k < e ==> is_ident_byte(#[trigger] b@[k]))),
{
    let mut name_end = open;
    while name_end > 0 && (b[name_end - 1] == 0x20 || b[name_end - 1] == 0x09)
        invariant
            name_end <= open <= b@.len(),
            blank_back(b@, name_end as int) == blank_back(b@, open as int),
        decreases name_end,
    {
        name_end -= 1;
    }
    let mut name_start = name_end;
    while name_start > 0 && ident_byte(b[name_start - 1])
        invariant
            name_start <= name_end <= open <= b@.len(),
            forall|k: int| name_start <= k < name_end ==> is_ident_byte(#[trigger] b@[k]),
            ident_back(b@, name_start as int) == ident_back(b@, name_end as int),
        decreases name_start,
    {
        name_start -= 1;
    }
    if name_start == name_end {
        return None;
    }
    let s = string_of_bytes(b, name_start, name_end);
    proof { assert(s@ == bytes_as_chars(b@, name_start as int, name_end as int)); }
    Some(s)
}

/// The first `:` at or after `i` in `s`, or -1.
pub open spec fn colon_from(s: Seq<char>, i: int) -> int
    decreases s.len() - i,
{
    if i >= s.len() || i < 0 { -1 } else if s[i] == ':' { i } else { colon_from(s, i + 1) }
}

/// The parameter that a piece `name: ty` of a parameter list gives: name and
/// type trimmed, split at the first `:`, both non-empty.
pub open spec fn param_of(piece: Seq<char>) -> Option<(Seq<char>, Seq<char>)> {
    let p = trim_text(piece);
    let c = colon_from(p, 0);
    if p.len() == 0 || c < 0 {
        None
    } else {
        let name = trim_text(p.take(c));
        let ty = trim_text(p.skip(c + 1));
        if name.len() == 0 || ty.len() == 0 { None } else { Some((name, ty)) }
    }
}

/// The parameters the pieces give, in order.
pub open spec fn params_from(pieces: Seq<Seq<char>>) -> Seq<(Seq<char>, Seq<char>)>
    decreases pieces.len(),
{
    if pieces.len() == 0 {
        Seq::empty()
    } else {
        let prev = params_from(pieces.drop_last());
        match param_of(pieces.last()) {
            Some(p) => prev.push(p),
            None => prev,
        }
    }
}

/// The parameters of a parameter list: none for a blank list, else those of its
/// comma-separated pieces.
pub open spec fn params_spec(s: Seq<char>) -> Seq<(Seq<char>, Seq<char>)> {
    if trim_text(s).len() == 0 { Seq::empty() } else { params_from(char_pieces(s, ',', 0, 0)) }
}

/// The names and types of parameters.
pub open spec fn params_view(v: Seq<FnParam>) -> Seq<(Seq<char>, Seq<char>)> {
    v.map_values(|p: FnParam| (p.name@, p.ty@))
}

/// Parses `name: ty, ...` (`params_spec`).
pub fn parse_params(params: &str) -> (r: Vec<FnParam>)
    ensures
        params_view(r@) == params_spec(params@),
        forall|i: int| 0 <= i < r@.len() ==> (#[trigger] r@[i]).name@.len() > 0 && r@[i].ty@.len() > 0,
{
    let mut out: Vec<FnParam> = Vec::new();
    let whole = trim_str(params);
    if whole.as_str().is_empty() {
        proof { assert(params_view(out@) =~= params_spec(params@)); }
        return out;
    }
    let pieces = pieces_by_char(params, ',');
    let ghost ps = texts(pieces@);
    let mut i: usize = 0;
    proof { assert(ps.take(0) =~= Seq::<Seq<char>>::empty()); }
    while i < pieces.len()
        invariant
            ps == texts(pieces@),
            ps == char_pieces(params@, ',', 0, 0),
            trim_text(params@).len() != 0,
            i <= pieces@.len(),
            params_view(out@) == params_from(ps.take(i as int)),
            forall|k: int| 0 <= k < out@.len() ==> (#[trigger] out@[k]).name@.len() > 0 && out@[k].ty@.len() > 0,
        decreases pieces@.len() - i,
    {
        let p = trim_str(pieces[i].as_str());
        proof {
            assert(ps[i as int] == pieces@[i as int]@);
            assert(ps.take(i + 1).drop_last() =~= ps.take(i as int));
            assert(ps.take(i + 1).last() == ps[i as int]);
        }
        let pc = chars_of(p.as_str());
        let mut c: usize = 0;
        while c < pc.len() && pc[c] != ':'
            invariant
                c <= pc@.len(),
                colon_from(pc@, c as int) == colon_from(pc@, 0),
            decreases pc@.len() - c,
        {
            c += 1;
        }
        let ghost before = params_view(out@);
        if pc.len() > 0 && c < pc.len() {
            let name = trim_str(string_of(&pc, 0, c).as_str());
            let ty = trim_str(string_of(&pc, c + 1, pc.len()).as_str());
            proof {
                assert(pc@.subrange(0, c as int) =~= p@.take(c as int));
                assert(pc@.subrange(c + 1, pc@.len() as int) =~= p@.skip(c + 1));
            }
            if !name.as_str().is_empty() && !ty.as_str().is_empty() {
                out.push(FnParam { name, ty });
                proof { assert(params_view(out@) =~= before.push(param_of(ps[i as int])->0)); }
            }
        }
        i += 1;
    }
    proof { assert(ps.take(pieces@.len() as int) =~= ps); }
    out
}

pub proof fn lemma_ws_end(b: Seq<u8>, p: int)
    requires
        0 <= p,
    ensures
        p <= ws_end(b, p),
        p <= b.len() ==> ws_end(b, p) <= b.len(),
    decreases b.len() - p,
{
    if p < b.len() && is_ws_byte(b[p]) {
        lemma_ws_end(b, p + 1);
    }
}

pub proof fn lemma_matching_from(b: Seq<u8>, i: int, depth: int, open: u8, close: u8)
    requires
        0 <= i,
    ensures
        matching_from(b, i, depth, open, close) == -1
            || i <= matching_from(b, i, depth, open, close) < b.len(),
    decreases b.len() - i,
{
    if i < b.len() {
        if b[i] == 0x22 {
            lemma_string_end(b, i + 1);
            lemma_matching_from(b, string_end(b, i + 1), depth, open, close);
        } else if line_comment_at(b, i) {
            lemma_line_comment_end(b, i + 2);
            lemma_matching_from(b, line_comment_end(b, i + 2), depth, open, close);
        } else if block_comment_at(b, i) {
            lemma_block_comment_end(b, i + 2);
            lemma_matching_from(b, block_comment_end(b, i + 2), depth, open, close);
        } else if b[i] == open {
            lemma_matching_from(b, i + 1, depth + 1, open, close);
        } else if b[i] == close {
            if depth > 1 {
                lemma_matching_from(b, i + 1, depth - 1, open, close);
            }
        } else {
            lemma_matching_from(b, i + 1, depth, open, close);
        }
    }
}

/// What the scanner reports of a function, with the position of its arrow.
pub struct FnShape {
    pub return_type: RsxReturnType,
    pub return_type_span: (int, int),
    pub body_span: (int, int),
    pub name: Option<Seq<char>>,
    pub arrow: int,
}

/// The function whose `->` stands at `i`: a return type, then a `{` whose
/// matching `}` closes the body.
pub open spec fn hit_at(b: Seq<u8>, i: int) -> Option<FnShape> {
    if !(0 <= i && i + 1 < b.len() && b[i] == 0x2D && b[i + 1] == 0x3E) {
        None
    } else {
        let ws = ws_end(b, i + 2);
        match return_type_at(b, ws) {
            None => None,
            Some((t, e)) => {
                let bs = ws_end(b, e);
                if !(bs < b.len() && b[bs] == 0x7B) {
                    None
                } else {
                    let be = matching_from(b, bs + 1, 1, 0x7B, 0x7D);
                    if be < 0 {
                        None
                    } else {
                        Some(FnShape { return_type: t, return_type_span: (ws, e), body_span: (bs + 1, be), name: fn_name_at(b, i), arrow: i })
                    }
                }
            },
        }
    }
}

pub proof fn lemma_hit_after(b: Seq<u8>, i: int)
    requires
        0 <= i,
    ensures
        hit_at(b, i) matches Some(h) ==> i < h.body_span.1 < b.len(),
{
    if 0 <= i && i + 1 < b.len() && b[i] == 0x2D && b[i + 1] == 0x3E {
        let ws = ws_end(b, i + 2);
        lemma_ws_end(b, i + 2);
        if let Some((t, e)) = return_type_at(b, ws) {
            lemma_ws_end(b, e);
            let bs = ws_end(b, e);
            lemma_matching_from(b, bs + 1, 1, 0x7B, 0x7D);
        }
    }
}

/// The functions the scanner finds in `b` from `i` on: strings and comments are
/// skipped, and after a function the scan goes on past its body.
pub open spec fn scan_from(b: Seq<u8>, i: int) -> Seq<FnShape>
    decreases b.len() - i,
{
    if i >= b.len() || i < 0 {
        Seq::empty()
    } else if b[i] == 0x22 {
        proof { lemma_string_end(b, i + 1); }
        scan_from(b, string_end(b, i + 1))
    } else if line_comment_at(b, i) {
        proof { lemma_line_comment_end(b, i + 2); }
        scan_from(b, line_comment_end(b, i + 2))
    } else if block_comment_at(b, i) {
        proof { lemma_block_comment_end(b, i + 2); }
        scan_from(b, block_comment_end(b, i + 2))
    } else {
        proof { lemma_hit_after(b, i); }
        match hit_at(b, i) {
            Some(h) => seq![h] + scan_from(b, h.body_span.1 + 1),
            None => scan_from(b, i + 1),
        }
    }
}

/// The texts of an optional name.
pub open spec fn name_view(n: Option<String>) -> Option<Seq<char>> {
    match n {
        Some(s) => Some(s@),
        None => None,
    }
}

/// A reported function is the one the scan describes: type, spans and name, and
/// the parameters of its parameter list (none for `Html`, or without a list;
/// those of the text of the list when its bytes are UTF-8, as a source's are).
pub open spec fn reports(b: Seq<u8>, f: RsxFunction, h: FnShape) -> bool {
    &&& f.return_type == h.return_type
    &&& f.return_type_span.0 == h.return_type_span.0 && f.return_type_span.1 == h.return_type_span.1
    &&& f.body_span.0 == h.body_span.0 && f.body_span.1 == h.body_span.1
    &&& name_view(f.name) == h.name
    &&& if h.return_type == RsxReturnType::Html {
        f.params@.len() == 0
    } else {
        match param_parens(b, h.arrow) {
            None => f.params@.len() == 0,
            Some((o, c)) => vstd::utf8::valid_utf8(b.subrange(o + 1, c))
                ==> params_view(f.params@) == params_spec(vstd::utf8::decode_utf8(b.subrange(o + 1, c))),
        }
    }
}

/// The facts the scanner guarantees of a function it reports in `b`.
pub open spec fn function_ok(b: Seq<u8>, f: RsxFunction) -> bool {
    &&& f.return_type_span.0 < f.return_type_span.1 <= f.body_span.0
    &&& 0 < f.body_span.0 <= f.body_span.1 < b.len()
    &&& b[f.body_span.0 - 1] == 0x7B
    &&& b[f.body_span.1 as int] == 0x7D
    &&& keyword_at(b, f.return_type_span.0 as int, b.subrange(f.return_type_span.0 as int, f.return_type_span.1 as int))
    &&& (f.return_type == RsxReturnType::Html ==> f.params@.len() == 0)
}

/// Scans a source file for functions returning `Html`, `Fragment`, `Client` or
/// `Component` (outside strings and comments), in order of appearance
/// (`scan_from`).
pub fn scan_functions(source: &str) -> (r: Vec<RsxFunction>)
    ensures
        r@.len() == scan_from(source.spec_bytes(), 0).len(),
        forall|i: int| 0 <= i < r@.len() ==> reports(source.spec_bytes(), #[trigger] r@[i], scan_from(source.spec_bytes(), 0)[i]),
        forall|i: int| 0 <= i < r@.len() ==> function_ok(source.spec_bytes(), #[trigger] r@[i]),
        forall|i: int, j: int| 0 <= i < j < r@.len() ==> r@[i].body_span.1 < r@[j].return_type_span.0,
{
    let b = source.as_bytes();
    let n = b.len();
    let mut results: Vec<RsxFunction> = Vec::new();
    let ghost mut hs: Seq<FnShape> = Seq::empty();
    let mut i: usize = 0;
    proof { assert(scan_from(b@, 0) =~= hs + scan_from(b@, 0)); }
    while i < n
        invariant
            n == b@.len(),
            b@ == source.spec_bytes(),
            i <= n,
            scan_from(b@, 0) == hs + scan_from(b@, i as int),
            hs.len() == results@.len(),
            forall|k: int| 0 <= k < results@.len() ==> reports(b@, #[trigger] results@[k], hs[k]),
            forall|k: int| 0 <= k < results@.len() ==> function_ok(b@, #[trigger] results@[k]),
            forall|k: int| 0 <= k < results@.len() ==> (#[trigger] results@[k]).body_span.1 < i,
            forall|k: int, j: int| 0 <= k < j < results@.len() ==> results@[k].body_span.1 < results@[j].return_type_span.0,
        decreases n - i,
    {
        let c = b[i];
        if c == 0x22 {
            i = skip_string(b, i);
            continue;
        }
        if c == 0x2F && n - i > 1 && b[i + 1] == 0x2F {
            i = skip_line_comment(b, i);
            continue;
        }
        if c == 0x2F && n - i > 1 && b[i + 1] == 0x2A {
            i = skip_block_comment(b, i);
            continue;
        }
        proof { lemma_hit_after(b@, i as int); }
        if c == 0x2D && n - i > 1 && b[i + 1] == 0x3E {
            let arrow_start = i;
            let ws_end = skip_whitespace(b, i + 2);
            match match_return_type(b, ws_end) {
                Some((ret_type, ret_end)) => {
                    let brace_start = skip_whitespace(b, ret_end);
                    if brace_start < n && b[brace_start] == 0x7B {
                        match find_matching(b, brace_start, 0x7B, 0x7D) {
                            Some(brace_end) => {
                                let (name, params) = if ret_type == RsxReturnType::Html {
                                    let nm = match find_param_parens(b, arrow_start) {
                                        Some((o, _c)) => name_before(b, o),
                                        None => None,
                                    };
                                    (nm, Vec::new())
                                } else {
                                    match find_param_parens(b, arrow_start) {
                                        Some((o, cl)) => {
                                            let params_str = utf8_lossy(&b[o + 1..cl]);
                                            let ps = parse_params(params_str.as_str());
                                            (name_before(b, o), ps)
                                        },
                                        None => (None, Vec::new()),
                                    }
                                };
                                let f = RsxFunction {
                                    return_type: ret_type,
                                    return_type_span: (ws_end, ret_end),
                                    body_span: (brace_start + 1, brace_end),
                                    name,
                                    params,
                                };
                                let ghost h = hit_at(b@, i as int)->0;
                                proof {
                                    assert(hit_at(b@, i as int) is Some);
                                    assert(reports(b@, f, h));
                                    assert(scan_from(b@, i as int) == seq![h] + scan_from(b@, brace_end + 1));
                                    assert(hs + scan_from(b@, i as int) =~= hs.push(h) + scan_from(b@, brace_end + 1));
                                    hs = hs.push(h);
                                }
                                results.push(f);
                                i = brace_end + 1;
                                continue;
                            },
                            None => {},
                        }
                    }
                },
                None => {},
            }
        }
        proof { assert(hit_at(b@, i as int) is None); }
        i += 1;
    }
    results
}

/// The bytes `return` stand at `i` of `b`, not inside a longer identifier.
pub open spec fn return_at(b: Seq<u8>, i: int) -> bool {
    &&& i + 6 <= b.len()
    &&& b[i] == 0x72 && b[i + 1] == 0x65 && b[i + 2] == 0x74 && b[i + 3] == 0x75 && b[i + 4] == 0x72 && b[i + 5] == 0x6E
    &&& !(i > 0 && is_ident_byte(b[i - 1]))
    &&& !(i + 6 < b.len() && is_ident_byte(b[i + 6]))
}

/// Scanning the body `b` from `i` at brace depth `depth` (strings and comments
/// skipped): the first `return` at depth 0 followed, after white space, by a `(`
/// that is closed, as the positions of `return`, of that `(` and of its `)`.
pub open spec fn split_scan(b: Seq<u8>, i: int, depth: int) -> Option<(int, int, int)>
    decreases b.len() - i,
{
    if i >= b.len() || i < 0 {
        None
    } else if b[i] == 0x22 {
        proof { lemma_string_end(b, i + 1); }
        split_scan(b, string_end(b, i + 1), depth)
    } else if line_comment_at(b, i) {
        proof { lemma_line_comment_end(b, i + 2); }
        split_scan(b, line_comment_end(b, i + 2), depth)
    } else if block_comment_at(b, i) {
        proof { lemma_block_comment_end(b, i + 2); }
        split_scan(b, block_comment_end(b, i + 2), depth)
    } else {
        let d = if b[i] == 0x7B { depth + 1 } else if b[i] == 0x7D { depth - 1 } else { depth };
        let j = ws_end(b, i + 6);
        if d == 0 && return_at(b, i) && j < b.len() && b[j] == 0x28 && matching_from(b, j + 1, 1, 0x28, 0x29) >= 0 {
            Some((i, j, matching_from(b, j + 1, 1, 0x28, 0x29)))
        } else {
            split_scan(b, i + 1, d)
        }
    }
}

/// The split of the body `source[body_span]` that `split_scan` finds, in
/// positions of `source`.
pub open spec fn body_split(b: Seq<u8>, body_span: (usize, usize)) -> Option<((int, int), (int, int))> {
    match split_scan(b.subrange(body_span.0 as int, body_span.1 as int), 0, 0) {
        None => None,
        Some((i, j, c)) => Some(((body_span.0 as int, body_span.0 + i), (body_span.0 + j + 1, body_span.0 + c))),
    }
}

/// The spans of a split, as integers.
pub open spec fn split_view(s: ComponentBodySplit) -> ((int, int), (int, int)) {
    ((s.logic_span.0 as int, s.logic_span.1 as int), (s.rsx_span.0 as int, s.rsx_span.1 as int))
}

/// Splits a Component body into the logic before a depth-0 `return (` and the RSX
/// inside those parentheses; `None` when there is no such `return`.
pub fn split_component_body(source: &str, body_span: (usize, usize)) -> (r: Option<ComponentBodySplit>)
    requires
        body_span.0 <= body_span.1 <= source.spec_bytes().len(),
    ensures
        match r {
            Some(s) => body_split(source.spec_bytes(), body_span) == Some(split_view(s)),
            None => body_split(source.spec_bytes(), body_span) is None,
        },
        r matches Some(s) ==> {
            &&& s.logic_span.0 == body_span.0
            &&& body_span.0 <= s.logic_span.1 < s.rsx_span.0 <= s.rsx_span.1 < body_span.1
            &&& source.spec_bytes()[s.rsx_span.0 - 1] == 0x28
            &&& source.spec_bytes()[s.rsx_span.1 as int] == 0x29
        },
{
    let all = source.as_bytes();
    let b = &all[body_span.0..body_span.1];
    let n = b.len();
    let mut i: usize = 0;
    let mut depth: i128 = 0;
    while i < n
        invariant
            n == b@.len(),
            b@ == all@.subrange(body_span.0 as int, body_span.1 as int),
            all@ == source.spec_bytes(),
            body_span.0 <= body_span.1 <= all@.len(),
            i <= n,
            -(i as int) <= depth <= i,
            split_scan(b@, i as int, depth as int) == split_scan(b@, 0, 0),
        decreases n - i,
    {
        let c = b[i];
        if c == 0x22 {
            i = skip_string(b, i);
            continue;
        }
        if c == 0x2F && n - i > 1 && b[i + 1] == 0x2F {
            i = skip_line_comment(b, i);
            continue;
        }
        if c == 0x2F && n - i > 1 && b[i + 1] == 0x2A {
            i = skip_block_comment(b, i);
            continue;
        }
        if c == 0x7B {
            depth += 1;
        }
        if c == 0x7D {
            depth -= 1;
        }
        if depth == 0 && n - i >= 6 && b[i] == 0x72 && b[i + 1] == 0x65 && b[i + 2] == 0x74
            && b[i + 3] == 0x75 && b[i + 4] == 0x72 && b[i + 5] == 0x6E {
            if i > 0 && ident_byte(b[i - 1]) {
                i += 1;
                continue;
            }
            if n - i > 6 && ident_byte(b[i + 6]) {
                i += 1;
                continue;
            }
            let j = skip_whitespace(b, i + 6);
            if j < n && b[j] == 0x28 {
                match find_matching(b, j, 0x28, 0x29) {
                    Some(close) => {
                        return Some(ComponentBodySplit {
                            logic_span: (body_span.0, body_span.0 + i),
                            rsx_span: (body_span.0 + j + 1, body_span.0 + close),
                        });
                    },
                    None => {},
                }
            }
        }
        i += 1;
    }
    None
}

} // verus!
