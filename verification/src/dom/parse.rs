//! HTML fragment parser: parses trusted HTML strings into DOM nodes.

use vstd::prelude::*;
use vstd::string::StringSliceAdditionalSpecFns;
use super::Document;
use super::node::{NodeId, NodeData, NodeKind, ElementData};
use super::attributes::split_on_spaces;
use crate::text::{chars_of, string_of, str_eq, is_alphanumeric, alphanumeric, char_from_u32, is_scalar, push_str};

verus! {

/// The bytes `pat` occur in `b` at position `i`.
pub open spec fn bytes_at(b: Seq<u8>, i: int, pat: Seq<u8>) -> bool {
    0 <= i && i + pat.len() <= b.len() && b.subrange(i, i + pat.len()) == pat
}

/// The position of the first `;` at or after `i`, or `b.len()`.
pub open spec fn semi_from(b: Seq<u8>, i: int) -> int
    decreases b.len() - i,
{
    if i < 0 || i >= b.len() { b.len() as int } else if b[i] == 0x3B { i } else { semi_from(b, i + 1) }
}

/// The value of an ASCII hex digit, if `c` is one.
pub open spec fn hex_digit(c: u8) -> Option<u32> {
    if 0x30 <= c <= 0x39 {
        Some((c - 0x30) as u32)
    } else if 0x61 <= c <= 0x66 {
        Some((c - 0x61 + 10) as u32)
    } else if 0x41 <= c <= 0x46 {
        Some((c - 0x41 + 10) as u32)
    } else {
        None
    }
}

/// The value of the digits `b[from..to]` in `base`, when all are digits of that
/// base and the value fits in a `u32`.
pub open spec fn digits_in(b: Seq<u8>, from: int, to: int, base: u32) -> Option<u32>
    decreases to - from,
{
    if to <= from {
        Some(0)
    } else {
        match (digits_in(b, from, to - 1, base), hex_digit(b[to - 1])) {
            (Some(v), Some(d)) => if d < base && v * base + d <= u32::MAX {
                Some((v * base + d) as u32)
            } else {
                None
            },
            _ => None,
        }
    }
}

/// The code of a numeric entity body `b[from..to]` (after `&#`): `x`/`X` and an
/// optionally `+`-signed, non-empty run of hex digits, or a run of decimal digits.
pub open spec fn entity_code(b: Seq<u8>, from: int, to: int) -> Option<u32> {
    if from < to && (b[from] == 0x78 || b[from] == 0x58) {
        let s = if from + 1 < to && b[from + 1] == 0x2B { from + 2 } else { from + 1 };
        if s >= to { None } else { digits_in(b, s, to, 16) }
    } else {
        digits_in(b, from, to, 10)
    }
}

/// The text after decoding the entities of `b[i..]`.
pub open spec fn decode_from(b: Seq<u8>, i: int) -> Seq<char>
    decreases b.len() - i,
{
    if i < 0 || i >= b.len() {
        Seq::empty()
    } else if b[i] == 0x26 {
        if bytes_at(b, i, seq![0x26u8, 0x61, 0x6d, 0x70, 0x3b]) {
            seq!['&'] + decode_from(b, i + 5)
        } else if bytes_at(b, i, seq![0x26u8, 0x6c, 0x74, 0x3b]) {
            seq!['<'] + decode_from(b, i + 4)
        } else if bytes_at(b, i, seq![0x26u8, 0x67, 0x74, 0x3b]) {
            seq!['>'] + decode_from(b, i + 4)
        } else if bytes_at(b, i, seq![0x26u8, 0x71, 0x75, 0x6f, 0x74, 0x3b]) {
            seq!['"'] + decode_from(b, i + 6)
        } else if bytes_at(b, i, seq![0x26u8, 0x23, 0x78, 0x32, 0x37, 0x3b]) || bytes_at(b, i, seq![0x26u8, 0x61, 0x70, 0x6f, 0x73, 0x3b]) {
            seq!['\''] + decode_from(b, i + 6)
        } else if bytes_at(b, i, seq![0x26u8, 0x23]) {
            let end = semi_from(b, i);
            proof { lemma_semi_from(b, i); }
            match entity_code(b, i + 2, end) {
                Some(code) => if is_scalar(code) {
                    seq![code as char] + decode_from(b, if end < b.len() { end + 1 } else { b.len() as int })
                } else {
                    seq!['&'] + decode_from(b, i + 1)
                },
                None => seq!['&'] + decode_from(b, i + 1),
            }
        } else {
            seq!['&'] + decode_from(b, i + 1)
        }
    } else {
        proof { lemma_amp_from(b, i); }
        let k = amp_from(b, i);
        vstd::utf8::decode_utf8(b.subrange(i, k)) + decode_from(b, k)
    }
}

/// Valid UTF-8 splits into valid UTF-8 before or after an ASCII byte (or at the end).
pub proof fn lemma_split_at_ascii(b: Seq<u8>, k: int)
    requires
        vstd::utf8::valid_utf8(b),
        0 <= k <= b.len(),
        k == 0 || k == b.len() || b[k] < 0x80 || b[k - 1] < 0x80,
    ensures
        vstd::utf8::valid_utf8(b.subrange(0, k)),
        vstd::utf8::valid_utf8(b.subrange(k, b.len() as int)),
    decreases b.len(),
{
    if k == 0 {
        assert(b.subrange(0, 0).len() == 0);
        assert(b.subrange(0, b.len() as int) =~= b);
    } else {
        let w = vstd::utf8::length_of_first_scalar(b);
        assert(1 <= w <= 4);
        assert(w <= k) by {
            if w > k {
                if k < b.len() && b[k] < 0x80 {
                    assert(vstd::utf8::is_continuation_byte(b[k]));
                } else if k > 1 {
                    assert(vstd::utf8::is_continuation_byte(b[k - 1]));
                }
            }
        }
        let rest = vstd::utf8::pop_first_scalar(b);
        assert(rest =~= b.subrange(w, b.len() as int));
        assert(rest.len() == b.len() - w);
        if k - w < rest.len() {
            assert(rest[k - w] == b[k]);
        }
        if k - w > 0 {
            assert(rest[k - w - 1] == b[k - 1]);
        }
        lemma_split_at_ascii(rest, k - w);
        assert(rest.subrange(k - w, rest.len() as int) =~= b.subrange(k, b.len() as int));
        let head = b.subrange(0, k);
        assert(head[0] == b[0]);
        if w >= 2 { assert(head[1] == b[1]); }
        if w >= 3 { assert(head[2] == b[2]); }
        if w >= 4 { assert(head[3] == b[3]); }
        assert(vstd::utf8::valid_first_scalar(head));
        assert(vstd::utf8::length_of_first_scalar(head) == w);
        assert(vstd::utf8::pop_first_scalar(head) =~= rest.subrange(0, k - w));
    }
}

proof fn lemma_rest_valid(b: Seq<u8>, i0: int, i: int)
    requires
        0 <= i0 < i <= b.len(),
        vstd::utf8::valid_utf8(b.subrange(i0, b.len() as int)),
        i == b.len() || b[i - 1] < 0x80,
    ensures
        vstd::utf8::valid_utf8(b.subrange(i, b.len() as int)),
{
    let t = b.subrange(i0, b.len() as int);
    if i < b.len() {
        assert(t[i - i0 - 1] == b[i - 1]);
    }
    lemma_split_at_ascii(t, i - i0);
    assert(t.subrange(i - i0, t.len() as int) =~= b.subrange(i, b.len() as int));
}

proof fn lemma_run_valid(b: Seq<u8>, i0: int, k: int)
    requires
        0 <= i0 <= k <= b.len(),
        vstd::utf8::valid_utf8(b.subrange(i0, b.len() as int)),
        k == b.len() || b[k] < 0x80,
    ensures
        vstd::utf8::valid_utf8(b.subrange(i0, k)),
        vstd::utf8::valid_utf8(b.subrange(k, b.len() as int)),
{
    let t = b.subrange(i0, b.len() as int);
    if k < b.len() {
        assert(t[k - i0] == b[k]);
    }
    lemma_split_at_ascii(t, k - i0);
    assert(t.subrange(0, k - i0) =~= b.subrange(i0, k));
    assert(t.subrange(k - i0, t.len() as int) =~= b.subrange(k, b.len() as int));
}

/// The first `&` at or after `i` (or the end).
pub open spec fn amp_from(b: Seq<u8>, i: int) -> int
    decreases b.len() - i,
{
    if i < 0 || i >= b.len() { b.len() as int } else if b[i] == 0x26 { i } else { amp_from(b, i + 1) }
}

pub proof fn lemma_amp_from(b: Seq<u8>, i: int)
    requires
        0 <= i <= b.len(),
    ensures
        i <= amp_from(b, i) <= b.len(),
        i < b.len() && b[i] != 0x26 ==> i < amp_from(b, i),
    decreases b.len() - i,
{
    if i < b.len() && b[i] != 0x26 {
        lemma_amp_from(b, i + 1);
    }
}


pub proof fn lemma_semi_from(b: Seq<u8>, i: int)
    requires
        0 <= i <= b.len(),
    ensures
        i <= semi_from(b, i) <= b.len(),
        forall|k: int| i <= k < semi_from(b, i) ==> b[k] != 0x3B,
        semi_from(b, i) < b.len() ==> b[semi_from(b, i)] == 0x3B,
    decreases b.len() - i,
{
    if i < b.len() && b[i] != 0x3B {
        lemma_semi_from(b, i + 1);
    }
}

/// Whether `pat` occurs in `b` at `i`.
fn bytes_match(b: &[u8], i: usize, pat: &[u8]) -> (r: bool)
    ensures
        r == bytes_at(b@, i as int, pat@),
{
    let n = b.len();
    if i > n || n - i < pat.len() {
        return false;
    }
    let mut k: usize = 0;
    while k < pat.len()
        invariant
            n == b@.len(),
            i + pat@.len() <= b@.len(),
            k <= pat@.len(),
            forall|j: int| 0 <= j < k ==> b@[i + j] == pat@[j],
        decreases pat@.len() - k,
    {
        if b[i + k] != pat[k] {
            proof { assert(b@.subrange(i as int, i + pat@.len())[k as int] != pat@[k as int]); }
            return false;
        }
        k += 1;
    }
    proof { assert(b@.subrange(i as int, i + pat@.len()) =~= pat@); }
    true
}

/// The value of an ASCII hex digit.
fn hex_digit_of(c: u8) -> (r: Option<u32>)
    ensures
        r == hex_digit(c),
{
    if 0x30 <= c && c <= 0x39 {
        Some((c - 0x30) as u32)
    } else if 0x61 <= c && c <= 0x66 {
        Some((c - 0x61 + 10) as u32)
    } else if 0x41 <= c && c <= 0x46 {
        Some((c - 0x41 + 10) as u32)
    } else {
        None
    }
}

/// The value of `b[from..to]` as digits of `base`.
fn parse_digits(b: &[u8], from: usize, to: usize, base: u32) -> (r: Option<u32>)
    requires
        from <= to <= b@.len(),
        base == 10 || base == 16,
    ensures
        r == digits_in(b@, from as int, to as int, base),
{
    let mut v: u32 = 0;
    let mut k = from;
    while k < to
        invariant
            from <= k <= to <= b@.len(),
            base == 10 || base == 16,
            digits_in(b@, from as int, k as int, base) == Some(v),
        decreases to - k,
    {
        match hex_digit_of(b[k]) {
            Some(d) => {
                if d >= base {
                    proof {
                        assert(digits_in(b@, from as int, k + 1, base) is None);
                        lemma_digits_none(b@, from as int, k + 1, to as int, base);
                    }
                    return None;
                }
                if v > (u32::MAX - d) / base {
                    proof {
                        assert(v * base + d > u32::MAX) by (nonlinear_arith)
                            requires v as int > (u32::MAX - d) as int / base as int, base > 0, d < base;
                        assert(digits_in(b@, from as int, k + 1, base) is None);
                        lemma_digits_none(b@, from as int, k + 1, to as int, base);
                    }
                    return None;
                }
                proof {
                    assert(v * base + d <= u32::MAX) by (nonlinear_arith)
                        requires v as int <= (u32::MAX - d) as int / base as int, base > 0, d <= u32::MAX;
                }
                v = v * base + d;
            },
            None => {
                proof {
                    assert(digits_in(b@, from as int, k + 1, base) is None);
                    lemma_digits_none(b@, from as int, k + 1, to as int, base);
                }
                return None;
            },
        }
        k += 1;
    }
    Some(v)
}

proof fn lemma_digits_none(b: Seq<u8>, from: int, j: int, to: int, base: u32)
    requires
        from <= j <= to,
        digits_in(b, from, j, base) is None,
    ensures
        digits_in(b, from, to, base) is None,
    decreases to - j,
{
    if j < to {
        assert(digits_in(b, from, j + 1, base) is None);
        lemma_digits_none(b, from, j + 1, to, base);
    }
}


/// The position of the first `;` at or after `i` (or the length).
fn find_semi(b: &[u8], i: usize) -> (r: usize)
    requires
        i <= b@.len(),
    ensures
        r as int == semi_from(b@, i as int),
{
    proof { lemma_semi_from(b@, i as int); }
    let mut k = i;
    while k < b.len()
        invariant
            i <= k <= b@.len(),
            semi_from(b@, i as int) == semi_from(b@, k as int),
        decreases b@.len() - k,
    {
        if b[k] == 0x3B {
            return k;
        }
        k += 1;
    }
    k
}

/// The code of the numeric entity body `b[from..to]`.
fn entity_code_of(b: &[u8], from: usize, to: usize) -> (r: Option<u32>)
    requires
        from <= to <= b@.len(),
    ensures
        r == entity_code(b@, from as int, to as int),
{
    if from < to && (b[from] == 0x78 || b[from] == 0x58) {
        let s = if from + 1 < to && b[from + 1] == 0x2B { from + 2 } else { from + 1 };
        if s >= to { None } else { parse_digits(b, s, to, 16) }
    } else {
        parse_digits(b, from, to, 10)
    }
}

/// Decodes the basic HTML entities (`&amp;`, `&lt;`, `&gt;`, `&quot;`, `&#x27;`,
/// `&apos;` and numeric ones); every other byte becomes the character of that value.
pub fn decode_entities(input: &str) -> (r: String)
    ensures
        r@ == decode_from(input.spec_bytes(), 0),
{
    let b = input.as_bytes();
    let len = b.len();
    let mut out = String::new();
    let mut i: usize = 0;
    proof {
        assert(out@ + decode_from(b@, 0) =~= decode_from(b@, 0));
        vstd::utf8::encode_utf8_valid_utf8(input@);
        assert(b@.subrange(0, len as int) =~= b@);
    }
    while i < len
        invariant
            len == b@.len(),
            b@ == input.spec_bytes(),
            i <= len,
            out@ + decode_from(b@, i as int) == decode_from(b@, 0),
            vstd::utf8::valid_utf8(b@.subrange(i as int, len as int)),
        decreases len - i,
    {
        let ghost before = out@;
        let ghost i0 = i as int;
        if b[i] == 0x26 {
            if bytes_match(b, i, &[0x26u8, 0x61, 0x6d, 0x70, 0x3b]) {
                proof {
                    assert(bytes_at(b@, i0, seq![0x26u8, 0x61, 0x6d, 0x70, 0x3b]));
                }
                out.push('&');
                i += 5;
                proof { assert(decode_from(b@, i0) == seq!['&'] + decode_from(b@, i as int)); }
            } else if bytes_match(b, i, &[0x26u8, 0x6c, 0x74, 0x3b]) {
                out.push('<');
                i += 4;
                proof { assert(decode_from(b@, i0) == seq!['<'] + decode_from(b@, i as int)); }
            } else if bytes_match(b, i, &[0x26u8, 0x67, 0x74, 0x3b]) {
                out.push('>');
                i += 4;
                proof { assert(decode_from(b@, i0) == seq!['>'] + decode_from(b@, i as int)); }
            } else if bytes_match(b, i, &[0x26u8, 0x71, 0x75, 0x6f, 0x74, 0x3b]) {
                out.push('"');
                i += 6;
                proof { assert(decode_from(b@, i0) == seq!['"'] + decode_from(b@, i as int)); }
            } else if bytes_match(b, i, &[0x26u8, 0x23, 0x78, 0x32, 0x37, 0x3b]) || bytes_match(b, i, &[0x26u8, 0x61, 0x70, 0x6f, 0x73, 0x3b]) {
                out.push('\'');
                i += 6;
                proof { assert(decode_from(b@, i0) == seq!['\''] + decode_from(b@, i as int)); }
            } else if bytes_match(b, i, &[0x26u8, 0x23]) {
                let end = find_semi(b, i);
                proof { lemma_semi_from(b@, i as int); }
                match entity_code_of(b, i + 2, end) {
                    Some(code) => {
                        match char_from_u32(code) {
                            Some(ch) => {
                                out.push(ch);
                                i = if end < len { end + 1 } else { len };
                                proof {
                                    assert(ch == code as char);
                                    assert(decode_from(b@, i0) == seq![ch] + decode_from(b@, i as int));
                                }
                            },
                            None => {
                                out.push('&');
                                i += 1;
                                proof { assert(decode_from(b@, i0) == seq!['&'] + decode_from(b@, i as int)); }
                            },
                        }
                    },
                    None => {
                        out.push('&');
                        i += 1;
                        proof { assert(decode_from(b@, i0) == seq!['&'] + decode_from(b@, i as int)); }
                    },
                }
            } else {
                out.push('&');
                i += 1;
                proof { assert(decode_from(b@, i0) == seq!['&'] + decode_from(b@, i as int)); }
            }
        } else {
            proof { lemma_amp_from(b@, i as int); }
            let mut k = i;
            while k < len && b[k] != 0x26
                invariant
                    len == b@.len(),
                    i0 <= k <= len,
                    amp_from(b@, k as int) == amp_from(b@, i0),
                decreases len - k,
            {
                k += 1;
            }
            proof { lemma_run_valid(b@, i0, k as int); }
            match crate::text::str_from_utf8(&b[i..k]) {
                Some(t) => {
                    push_str(&mut out, t.as_str());
                },
                None => {},
            }
            proof {
                assert(decode_from(b@, i0) == vstd::utf8::decode_utf8(b@.subrange(i0, k as int)) + decode_from(b@, k as int));
                assert(out@ + decode_from(b@, k as int) =~= before + decode_from(b@, i0));
            }
            i = k;
            continue;
        }
        proof {
            let c = out@.last();
            assert(out@ == before.push(c));
            assert(decode_from(b@, i0) == seq![c] + decode_from(b@, i as int));
            assert(out@ + decode_from(b@, i as int) =~= before + decode_from(b@, i0));
            assert(i == len || b@[i - 1] < 0x80);
            lemma_rest_valid(b@, i0, i as int);
        }
    }
    proof { assert(out@ + decode_from(b@, len as int) =~= out@); }
    out
}


/// The void (self-closing) HTML elements.
pub open spec fn is_void_tag(t: Seq<char>) -> bool {
    t == "area"@ || t == "base"@ || t == "br"@ || t == "col"@ || t == "embed"@ || t == "hr"@
        || t == "img"@ || t == "input"@ || t == "link"@ || t == "meta"@ || t == "param"@
        || t == "source"@ || t == "track"@ || t == "wbr"@
}

/// Whether `tag` names a void HTML element.
pub fn is_void_element(tag: &str) -> (r: bool)
    ensures
        r == is_void_tag(tag@),
{
    str_eq(tag, "area") || str_eq(tag, "base") || str_eq(tag, "br") || str_eq(tag, "col")
        || str_eq(tag, "embed") || str_eq(tag, "hr") || str_eq(tag, "img") || str_eq(tag, "input")
        || str_eq(tag, "link") || str_eq(tag, "meta") || str_eq(tag, "param") || str_eq(tag, "source")
        || str_eq(tag, "track") || str_eq(tag, "wbr")
}

/// An ASCII uppercase letter lowered; other characters unchanged.
pub open spec fn lower_char(c: char) -> char {
    if 'A' <= c <= 'Z' { ((c as u32) + 32) as char } else { c }
}

/// The first position at or after `p` that is not HTML white space (or the end).
pub open spec fn html_ws_end(s: Seq<char>, p: int) -> int
    decreases s.len() - p,
{
    if p < 0 || p >= s.len() { p } else if s[p] == ' ' || s[p] == '\t' || s[p] == '\n' || s[p] == '\r' { html_ws_end(s, p + 1) } else { p }
}

/// A character of a tag or attribute name (`extra` admits `:` and `@` too).
pub open spec fn html_name_char(c: char, extra: bool) -> bool {
    alphanumeric(c) || c == '-' || c == '_' || (extra && (c == ':' || c == '@'))
}

/// The end of the run of name characters starting at `p`.
pub open spec fn html_name_end(s: Seq<char>, p: int, extra: bool) -> int
    decreases s.len() - p,
{
    if p < 0 || p >= s.len() { p } else if html_name_char(s[p], extra) { html_name_end(s, p + 1, extra) } else { p }
}

/// The first position at or after `p` holding `c` (or the end).
pub open spec fn char_from(s: Seq<char>, p: int, c: char) -> int
    decreases s.len() - p,
{
    if p < 0 || p >= s.len() { p } else if s[p] == c { p } else { char_from(s, p + 1, c) }
}

/// The end of an unquoted attribute value starting at `p`: the first space, `>`
/// or `/` (or the end).
pub open spec fn unquoted_end(s: Seq<char>, p: int) -> int
    decreases s.len() - p,
{
    if p < 0 || p >= s.len() { p } else if s[p] == ' ' || s[p] == '>' || s[p] == '/' { p } else { unquoted_end(s, p + 1) }
}

/// An attribute value starting at `p`, and the position after it: quoted by `"`
/// or `'` (the closing quote consumed when there is one), or unquoted.
pub open spec fn html_attr_value(s: Seq<char>, p: int) -> (Seq<char>, int) {
    if 0 <= p < s.len() && (s[p] == '"' || s[p] == '\'') {
        let k = char_from(s, p + 1, s[p]);
        (s.subrange(p + 1, k), if k < s.len() { k + 1 } else { k })
    } else {
        (s.subrange(p, unquoted_end(s, p)), unquoted_end(s, p))
    }
}

/// `s[from..to]` with ASCII capitals lowered.
pub open spec fn lowered(s: Seq<char>, from: int, to: int) -> Seq<char> {
    Seq::new((to - from) as nat, |k: int| lower_char(s[from + k]))
}

/// An attribute starting at `p`: its name, its value (empty without `=`) and the
/// position after it; `None` when no name starts there.
pub open spec fn html_attribute(s: Seq<char>, p: int) -> Option<(Seq<char>, Seq<char>, int)> {
    let e = html_name_end(s, p, true);
    if e == p {
        None
    } else {
        let w = html_ws_end(s, e);
        if w < s.len() && s[w] == '=' {
            let v = html_attr_value(s, html_ws_end(s, w + 1));
            Some((lowered(s, p, e), v.0, v.1))
        } else {
            Some((lowered(s, p, e), Seq::empty(), w))
        }
    }
}

proof fn lemma_html_scans(s: Seq<char>, p: int, c: char, extra: bool)
    requires
        0 <= p <= s.len(),
    ensures
        p <= html_ws_end(s, p) <= s.len(),
        p <= html_name_end(s, p, extra) <= s.len(),
        p <= char_from(s, p, c) <= s.len(),
        p <= unquoted_end(s, p) <= s.len(),
    decreases s.len() - p,
{
    if p < s.len() {
        lemma_html_scans(s, p + 1, c, extra);
    }
}

/// The first position at or after `p` where `-->` starts (or the end).
pub open spec fn comment_end(s: Seq<char>, p: int) -> int
    decreases s.len() - p,
{
    if p < 0 || p >= s.len() { s.len() as int } else if crate::text::occurs_at(s, "-->"@, p) { p } else { comment_end(s, p + 1) }
}

/// The attributes of an opening tag from `p`, whether it closes itself, and the
/// position after its `>` or `/>` (or the end). A character that starts no
/// attribute is skipped.
pub open spec fn open_attrs(s: Seq<char>, p: int) -> (Seq<(Seq<char>, Seq<char>)>, bool, int)
    decreases s.len() - p,
{
    let w = html_ws_end(s, p);
    if p < 0 || p > s.len() || w < p || w >= s.len() {
        (Seq::empty(), false, w)
    } else if s[w] == '>' {
        (Seq::empty(), false, w + 1)
    } else if s[w] == '/' {
        (Seq::empty(), true, if w + 1 < s.len() && s[w + 1] == '>' { w + 2 } else { w + 1 })
    } else {
        match html_attribute(s, w) {
            Some((n, v, q)) => if w < q <= s.len() {
                let r = open_attrs(s, q);
                (seq![(n, v)] + r.0, r.1, r.2)
            } else {
                (Seq::empty(), false, w)
            },
            None => open_attrs(s, w + 1),
        }
    }
}

/// What a fragment token says, as plain values.
pub enum FragTokenView {
    OpenTag(Seq<char>, Seq<(Seq<char>, Seq<char>)>, bool),
    CloseTag(Seq<char>),
    Text(Seq<char>),
    Comment(Seq<char>),
}

/// The token of an HTML fragment at `p` and the position after it; `None` at the end.
pub open spec fn frag_next(s: Seq<char>, p: int) -> Option<(FragTokenView, int)> {
    if p < 0 || p >= s.len() {
        None
    } else if crate::text::occurs_at(s, "<!--"@, p) {
        let k = comment_end(s, p + 4);
        Some((FragTokenView::Comment(s.subrange(p + 4, k)), if k < s.len() { k + 3 } else { s.len() as int }))
    } else if s[p] == '<' {
        if crate::text::occurs_at(s, "</"@, p) {
            let e = html_name_end(s, p + 2, false);
            let g = char_from(s, e, '>');
            Some((FragTokenView::CloseTag(lowered(s, p + 2, e)), if g < s.len() { g + 1 } else { g }))
        } else {
            let e = html_name_end(s, p + 1, false);
            let a = open_attrs(s, e);
            Some((FragTokenView::OpenTag(lowered(s, p + 1, e), a.0, a.1), a.2))
        }
    } else {
        let t = char_from(s, p, '<');
        Some((FragTokenView::Text(s.subrange(p, t)), t))
    }
}

/// A node that parsing a fragment appends, as plain values.
pub enum FragItem {
    /// An element: tag, attributes, and whether it is void or self-closing.
    Element(Seq<char>, Seq<(Seq<char>, Seq<char>)>, bool),
    /// A text node (entities decoded).
    Text(Seq<char>),
    /// A comment.
    Comment(Seq<char>),
}

/// The close tag name as plain text.
pub open spec fn close_view(close: Option<&str>) -> Option<Seq<char>> {
    match close {
        Some(t) => Some(t@),
        None => None,
    }
}

/// `x` in front of the items of `r`.
pub open spec fn cons_item(x: FragItem, r: (Seq<FragItem>, int)) -> (Seq<FragItem>, int) {
    (seq![x] + r.0, r.1)
}

/// The nodes that parsing the fragment from `p` appends to the parent, up to the
/// end or the closing tag named `close`, and the position where that parse stops.
/// (Each token ends after its start, and a nested element's parse after its
/// opening tag; the checks on that bound the recursion.)
pub open spec fn frag_items(s: Seq<char>, p: int, close: Option<Seq<char>>) -> (Seq<FragItem>, int)
    decreases s.len() - p,
{
    match frag_next(s, p) {
        None => (Seq::empty(), p),
        Some((t, q)) => if !(p < q <= s.len()) {
            (Seq::empty(), p)
        } else {
            match t {
                FragTokenView::CloseTag(name) => if close == Some(name) { (Seq::empty(), q) } else { frag_items(s, q, close) },
                FragTokenView::OpenTag(tag, attrs, sc) => {
                    let void = sc || is_void_tag(tag);
                    let item = FragItem::Element(tag, attrs, void);
                    if void {
                        cons_item(item, frag_items(s, q, close))
                    } else {
                        let e = frag_items(s, q, Some(tag)).1;
                        if q <= e <= s.len() { cons_item(item, frag_items(s, e, close)) } else { (seq![item], e) }
                    }
                },
                FragTokenView::Text(t) => if t.len() == 0 {
                    frag_items(s, q, close)
                } else {
                    cons_item(FragItem::Text(decode_from(vstd::utf8::encode_utf8(t), 0)), frag_items(s, q, close))
                },
                FragTokenView::Comment(c) => cons_item(FragItem::Comment(c), frag_items(s, q, close)),
            }
        },
    }
}

/// An HTML void element name: area, base, br, col, embed, hr, img, input, link,
/// meta, param, source, track or wbr.
pub open spec fn html_void_name(t: Seq<char>) -> bool {
    seq![
        "area"@, "base"@, "br"@, "col"@, "embed"@, "hr"@, "img"@,
        "input"@, "link"@, "meta"@, "param"@, "source"@, "track"@, "wbr"@,
    ].contains(t)
}

/// Void elements: `is_void_element` holds exactly of the HTML void element names.
/// An opening tag with such a name (slash or not) gives an element marked void that
/// takes no children: what follows it is parsed as its siblings. An opening tag with
/// any other name and no slash gives an element marked not void whose children are
/// what follows up to its closing tag, and its siblings what follows that.
pub proof fn law_void_elements(s: Seq<char>, p: int, close: Option<Seq<char>>, tag: Seq<char>,
    attrs: Seq<(Seq<char>, Seq<char>)>, sc: bool, q: int)
    ensures
        forall|t: Seq<char>| #[trigger] is_void_tag(t) <==> html_void_name(t),
        frag_next(s, p) == Some((FragTokenView::OpenTag(tag, attrs, sc), q)) && p < q <= s.len() ==> {
            &&& html_void_name(tag) ==> frag_items(s, p, close)
                == cons_item(FragItem::Element(tag, attrs, true), frag_items(s, q, close))
            &&& !html_void_name(tag) && !sc ==> {
                let e = frag_items(s, q, Some(tag)).1;
                frag_items(s, p, close) == if q <= e <= s.len() {
                    cons_item(FragItem::Element(tag, attrs, false), frag_items(s, e, close))
                } else {
                    (seq![FragItem::Element(tag, attrs, false)], e)
                }
            }
        },
{
}

/// Node `n` holds what item `it` says.
pub open spec fn holds_item(n: NodeData, it: FragItem) -> bool {
    match it {
        FragItem::Element(tag, attrs, void) => n.kind matches NodeKind::Element(el) && el.tag@ == tag
            && super::attributes::attrs_view(el.attributes@) == attrs && el.self_closing == void,
        FragItem::Text(t) => n.kind matches NodeKind::Text(x) && x@ == t,
        FragItem::Comment(c) => n.kind matches NodeKind::Comment(x) && x@ == c,
    }
}

/// Attribute pairs as plain values.
pub open spec fn pairs_view(v: Seq<(String, String)>) -> Seq<(Seq<char>, Seq<char>)> {
    Seq::new(v.len(), |i: int| (v[i].0@, v[i].1@))
}

/// A token of an HTML fragment.
enum FragmentToken {
    OpenTag { tag: String, attrs: Vec<(String, String)>, self_closing: bool },
    CloseTag { tag: String },
    Text(String),
    Comment(String),
}

/// The view of a fragment token.
spec fn frag_token_view(t: FragmentToken) -> FragTokenView {
    match t {
        FragmentToken::OpenTag { tag, attrs, self_closing } => FragTokenView::OpenTag(tag@, pairs_view(attrs@), self_closing),
        FragmentToken::CloseTag { tag } => FragTokenView::CloseTag(tag@),
        FragmentToken::Text(t) => FragTokenView::Text(t@),
        FragmentToken::Comment(c) => FragTokenView::Comment(c@),
    }
}

/// A cursor over the characters of an HTML fragment.
struct FragmentParser {
    cs: Vec<char>,
    pos: usize,
}

impl FragmentParser {
    /// The cursor is within the input.
    spec fn ok(&self) -> bool {
        self.pos <= self.cs@.len() && self.cs@.len() <= usize::MAX
    }

    /// How many characters are left.
    spec fn rest(&self) -> int {
        self.cs@.len() - self.pos
    }

    /// A cursor at the start of `input`.
    fn new(input: &str) -> (p: Self)
        ensures
            p.ok(),
            p.rest() == input@.len(),
            p.cs@ == input@,
            p.pos == 0,
    {
        let cs = chars_of(input);
        proof { assert(cs@.len() == cs.len()); }
        FragmentParser { cs, pos: 0 }
    }

    fn peek_is(&self, c: char) -> (r: bool)
        requires
            self.ok(),
        ensures
            r == (self.pos < self.cs@.len() && self.cs@[self.pos as int] == c),
    {
        self.pos < self.cs.len() && self.cs[self.pos] == c
    }

    fn advance(&mut self)
        requires
            old(self).ok(),
        ensures
            final(self).ok(),
            final(self).cs == old(self).cs,
            final(self).pos == (if old(self).pos < old(self).cs@.len() { old(self).pos + 1 } else { old(self).pos as int }),
    {
        if self.pos < self.cs.len() {
            self.pos += 1;
        }
    }

    fn starts_with_chars(&self, w: &str) -> (r: bool)
        requires
            self.ok(),
        ensures
            r == crate::text::occurs_at(self.cs@, w@, self.pos as int),
    {
        let wc = chars_of(w);
        crate::text::chars_at(&self.cs, self.pos, &wc)
    }

    fn skip_ws(&mut self)
        requires
            old(self).ok(),
        ensures
            final(self).ok(),
            final(self).cs == old(self).cs,
            final(self).pos >= old(self).pos,
            final(self).pos == html_ws_end(old(self).cs@, old(self).pos as int),
    {
        while self.pos < self.cs.len()
            invariant
                self.ok(),
                self.cs == old(self).cs,
                self.pos >= old(self).pos,
                html_ws_end(self.cs@, self.pos as int) == html_ws_end(self.cs@, old(self).pos as int),
            ensures
                self.ok(),
                self.cs == old(self).cs,
                self.pos >= old(self).pos,
                self.pos == html_ws_end(self.cs@, old(self).pos as int),
            decreases self.cs@.len() - self.pos,
        {
            let c = self.cs[self.pos];
            if c == ' ' || c == '\t' || c == '\n' || c == '\r' {
                self.pos += 1;
            } else {
                break;
            }
        }
    }

    /// Reads a run of name characters (`extra` admits `:` and `@` too), lowering
    /// ASCII capitals.
    fn read_name(&mut self, extra: bool) -> (r: String)
        requires
            old(self).ok(),
        ensures
            final(self).ok(),
            final(self).cs == old(self).cs,
            final(self).pos >= old(self).pos,
            r@.len() == final(self).pos - old(self).pos,
            forall|k: int| 0 <= k < r@.len() ==> r@[k] == lower_char(old(self).cs@[old(self).pos + k]),
            final(self).pos == html_name_end(old(self).cs@, old(self).pos as int, extra),
            r@ == lowered(old(self).cs@, old(self).pos as int, final(self).pos as int),
    {
        let mut s = String::new();
        while self.pos < self.cs.len()
            invariant
                self.ok(),
                self.cs == old(self).cs,
                self.pos >= old(self).pos,
                s@.len() == self.pos - old(self).pos,
                forall|k: int| 0 <= k < s@.len() ==> s@[k] == lower_char(old(self).cs@[old(self).pos + k]),
                html_name_end(self.cs@, self.pos as int, extra) == html_name_end(self.cs@, old(self).pos as int, extra),
            ensures
                self.ok(),
                self.cs == old(self).cs,
                self.pos >= old(self).pos,
                s@.len() == self.pos - old(self).pos,
                forall|k: int| 0 <= k < s@.len() ==> s@[k] == lower_char(old(self).cs@[old(self).pos + k]),
                self.pos == html_name_end(self.cs@, old(self).pos as int, extra),
            decreases self.cs@.len() - self.pos,
        {
            let c = self.cs[self.pos];
            if is_alphanumeric(c) || c == '-' || c == '_' || (extra && (c == ':' || c == '@')) {
                if 'A' <= c && c <= 'Z' {
                    let lc = char_from_u32(c as u32 + 32);
                    match lc {
                        Some(l) => s.push(l),
                        None => s.push(c),
                    }
                } else {
                    s.push(c);
                }
                self.pos += 1;
            } else {
                break;
            }
        }
        proof { assert(s@ =~= lowered(old(self).cs@, old(self).pos as int, self.pos as int)); }
        s
    }

    fn parse_text(&mut self) -> (r: String)
        requires
            old(self).ok(),
        ensures
            final(self).ok(),
            final(self).cs == old(self).cs,
            final(self).pos >= old(self).pos,
            r@ == old(self).cs@.subrange(old(self).pos as int, final(self).pos as int),
            old(self).pos < old(self).cs@.len() && old(self).cs@[old(self).pos as int] != '<' ==> final(self).pos > old(self).pos,
            final(self).pos == char_from(old(self).cs@, old(self).pos as int, '<'),
    {
        let start = self.pos;
        while self.pos < self.cs.len() && self.cs[self.pos] != '<'
            invariant
                self.ok(),
                self.cs == old(self).cs,
                self.pos >= start,
                start == old(self).pos,
                char_from(self.cs@, self.pos as int, '<') == char_from(self.cs@, start as int, '<'),
            decreases self.cs@.len() - self.pos,
        {
            self.pos += 1;
        }
        string_of(&self.cs, start, self.pos)
    }

    fn parse_comment(&mut self) -> (r: String)
        requires
            old(self).ok(),
            old(self).pos + 4 <= old(self).cs@.len(),
        ensures
            final(self).ok(),
            final(self).cs == old(self).cs,
            final(self).pos > old(self).pos,
            r@ == old(self).cs@.subrange(old(self).pos + 4, comment_end(old(self).cs@, old(self).pos + 4)),
            final(self).pos == (if comment_end(old(self).cs@, old(self).pos + 4) < old(self).cs@.len() {
                comment_end(old(self).cs@, old(self).pos + 4) + 3
            } else {
                old(self).cs@.len() as int
            }),
    {
        self.pos += 4;
        let start = self.pos;
        proof { reveal_strlit("-->"); }
        while self.pos < self.cs.len()
            invariant
                self.ok(),
                self.cs == old(self).cs,
                self.pos >= start,
                start == old(self).pos + 4,
                comment_end(self.cs@, self.pos as int) == comment_end(self.cs@, start as int),
            decreases self.cs@.len() - self.pos,
        {
            if self.starts_with_chars("-->") {
                let text = string_of(&self.cs, start, self.pos);
                proof {
                    reveal_strlit("-->");
                }
                self.pos += 3;
                return text;
            }
            self.pos += 1;
        }
        string_of(&self.cs, start, self.pos)
    }

    fn skip_until(&mut self, target: char)
        requires
            old(self).ok(),
        ensures
            final(self).ok(),
            final(self).cs == old(self).cs,
            final(self).pos >= old(self).pos,
            final(self).pos == char_from(old(self).cs@, old(self).pos as int, target),
    {
        while self.pos < self.cs.len() && self.cs[self.pos] != target
            invariant
                self.ok(),
                self.cs == old(self).cs,
                self.pos >= old(self).pos,
                char_from(self.cs@, self.pos as int, target) == char_from(self.cs@, old(self).pos as int, target),
            decreases self.cs@.len() - self.pos,
        {
            self.pos += 1;
        }
    }

    fn parse_attr_value(&mut self) -> (r: String)
        requires
            old(self).ok(),
        ensures
            final(self).ok(),
            final(self).cs == old(self).cs,
            final(self).pos >= old(self).pos,
            (r@, final(self).pos as int) == html_attr_value(old(self).cs@, old(self).pos as int),
    {
        if self.peek_is('"') || self.peek_is('\'') {
            let quote = self.cs[self.pos];
            self.pos += 1;
            let start = self.pos;
            while self.pos < self.cs.len() && self.cs[self.pos] != quote
                invariant
                    self.ok(),
                    self.cs == old(self).cs,
                    self.pos >= start,
                    start == old(self).pos + 1,
                    quote == self.cs@[old(self).pos as int],
                    char_from(self.cs@, self.pos as int, quote) == char_from(self.cs@, start as int, quote),
                decreases self.cs@.len() - self.pos,
            {
                self.pos += 1;
            }
            let val = string_of(&self.cs, start, self.pos);
            self.advance();
            val
        } else {
            let start = self.pos;
            while self.pos < self.cs.len() && self.cs[self.pos] != ' ' && self.cs[self.pos] != '>' && self.cs[self.pos] != '/'
                invariant
                    self.ok(),
                    self.cs == old(self).cs,
                    self.pos >= start,
                    start == old(self).pos,
                    unquoted_end(self.cs@, self.pos as int) == unquoted_end(self.cs@, start as int),
                decreases self.cs@.len() - self.pos,
            {
                self.pos += 1;
            }
            string_of(&self.cs, start, self.pos)
        }
    }

    fn parse_attribute(&mut self) -> (r: Option<(String, String)>)
        requires
            old(self).ok(),
        ensures
            final(self).ok(),
            final(self).cs == old(self).cs,
            final(self).pos >= old(self).pos,
            r is Some ==> final(self).pos > old(self).pos,
            r is None ==> final(self).pos == old(self).pos,
            match html_attribute(old(self).cs@, old(self).pos as int) {
                None => r is None,
                Some((n, v, q)) => r matches Some(a) && a.0@ == n && a.1@ == v && final(self).pos == q,
            },
    {
        proof { lemma_html_scans(self.cs@, self.pos as int, ' ', true); }
        let name = self.read_name(true);
        if name.as_str().is_empty() {
            return None;
        }
        self.skip_ws();
        if !self.peek_is('=') {
            return Some((name, String::new()));
        }
        proof { lemma_html_scans(self.cs@, self.pos as int, ' ', true); }
        self.advance();
        proof { lemma_html_scans(self.cs@, self.pos as int, ' ', true); }
        self.skip_ws();
        let value = self.parse_attr_value();
        Some((name, value))
    }

    fn parse_open_tag(&mut self) -> (r: FragmentToken)
        requires
            old(self).ok(),
            old(self).pos < old(self).cs@.len(),
        ensures
            final(self).ok(),
            final(self).cs == old(self).cs,
            final(self).pos > old(self).pos,
            r is OpenTag,
            ({
                let e = html_name_end(old(self).cs@, old(self).pos + 1, false);
                let a = open_attrs(old(self).cs@, e);
                &&& frag_token_view(r) == FragTokenView::OpenTag(lowered(old(self).cs@, old(self).pos + 1, e), a.0, a.1)
                &&& final(self).pos == a.2
            }),
    {
        self.advance();
        let tag = self.read_name(false);
        let ghost e = self.pos as int;
        let mut attrs: Vec<(String, String)> = Vec::new();
        let mut self_closing = false;
        proof { assert(pairs_view(attrs@) + open_attrs(self.cs@, e).0 =~= open_attrs(self.cs@, e).0); }
        loop
            invariant_except_break
                open_attrs(self.cs@, e) == (pairs_view(attrs@) + open_attrs(self.cs@, self.pos as int).0,
                    open_attrs(self.cs@, self.pos as int).1, open_attrs(self.cs@, self.pos as int).2),
                !self_closing,
            invariant
                self.ok(),
                self.cs == old(self).cs,
                self.pos > old(self).pos,
                e > old(self).pos,
            ensures
                open_attrs(self.cs@, e) == (pairs_view(attrs@), self_closing, self.pos as int),
            decreases self.rest(),
        {
            let ghost p1 = self.pos as int;
            proof { lemma_html_scans(self.cs@, self.pos as int, ' ', true); }
            self.skip_ws();
            if self.pos >= self.cs.len() {
                proof { assert(pairs_view(attrs@) + Seq::<(Seq<char>, Seq<char>)>::empty() =~= pairs_view(attrs@)); }
                break;
            }
            if self.peek_is('>') {
                self.advance();
                proof { assert(pairs_view(attrs@) + Seq::<(Seq<char>, Seq<char>)>::empty() =~= pairs_view(attrs@)); }
                break;
            }
            if self.peek_is('/') {
                self.advance();
                if self.peek_is('>') {
                    self.advance();
                }
                self_closing = true;
                proof { assert(pairs_view(attrs@) + Seq::<(Seq<char>, Seq<char>)>::empty() =~= pairs_view(attrs@)); }
                break;
            }
            let ghost w0 = self.pos as int;
            match self.parse_attribute() {
                Some(a) => {
                    let ghost before = attrs@;
                    proof {
                        let r = open_attrs(self.cs@, self.pos as int);
                        assert(open_attrs(self.cs@, p1) == (seq![(a.0@, a.1@)] + r.0, r.1, r.2));
                    }
                    attrs.push(a);
                    proof {
                        let r = open_attrs(self.cs@, self.pos as int);
                        assert(pairs_view(attrs@) =~= pairs_view(before).push((a.0@, a.1@)));
                        assert(pairs_view(before) + (seq![(a.0@, a.1@)] + r.0) =~= pairs_view(attrs@) + r.0);
                        assert(open_attrs(self.cs@, e) == (pairs_view(attrs@) + r.0, r.1, r.2));
                    }
                },
                None => {
                    let ghost w = w0;
                    proof {
                        assert(html_attribute(self.cs@, w) is None);
                        assert(open_attrs(self.cs@, p1) == open_attrs(self.cs@, w + 1));
                    }
                    self.advance();
                },
            }
        }
        FragmentToken::OpenTag { tag, attrs, self_closing }
    }

    fn parse_close_tag(&mut self) -> (r: FragmentToken)
        requires
            old(self).ok(),
            old(self).pos + 2 <= old(self).cs@.len(),
        ensures
            final(self).ok(),
            final(self).cs == old(self).cs,
            final(self).pos > old(self).pos,
            r is CloseTag,
            ({
                let e = html_name_end(old(self).cs@, old(self).pos + 2, false);
                let g = char_from(old(self).cs@, e, '>');
                &&& frag_token_view(r) == FragTokenView::CloseTag(lowered(old(self).cs@, old(self).pos + 2, e))
                &&& final(self).pos == (if g < old(self).cs@.len() { g + 1 } else { g })
            }),
    {
        self.pos += 2;
        let tag = self.read_name(false);
        self.skip_until('>');
        self.advance();
        FragmentToken::CloseTag { tag }
    }

    /// The next token, or `None` at the end of the input.
    fn next_token(&mut self) -> (r: Option<FragmentToken>)
        requires
            old(self).ok(),
        ensures
            final(self).ok(),
            final(self).cs == old(self).cs,
            r is None <==> old(self).rest() == 0,
            r is None ==> final(self).pos == old(self).pos,
            r is Some ==> final(self).rest() < old(self).rest(),
            match frag_next(old(self).cs@, old(self).pos as int) {
                None => r is None,
                Some((t, q)) => r matches Some(x) && frag_token_view(x) == t && final(self).pos == q,
            },
    {
        if self.pos >= self.cs.len() {
            return None;
        }
        proof {
            reveal_strlit("<!--");
            reveal_strlit("</");
        }
        if self.starts_with_chars("<!--") {
            return Some(FragmentToken::Comment(self.parse_comment()));
        }
        if self.peek_is('<') {
            if self.starts_with_chars("</") {
                return Some(self.parse_close_tag());
            }
            return Some(self.parse_open_tag());
        }
        let t = self.parse_text();
        Some(FragmentToken::Text(t))
    }
}

impl Document {
    /// `self` extends `before`: live nodes stay live with their payload, and only
    /// `p`'s children list changes among them, by growing at its end.
    pub open spec fn appended_under(&self, before: Document, p: NodeId) -> bool {
        &&& before.nodes@.len() <= self.nodes@.len()
        &&& self.root == before.root
        &&& forall|n: NodeId| #[trigger] before.live(n) ==> {
            &&& self.live(n)
            &&& super::same_payload(self.nodes@[n.0 as int], before.nodes@[n.0 as int])
            &&& (n != p ==> self.kids@[n.0 as int] == before.kids@[n.0 as int])
            &&& (before.nodes@[n.0 as int].parent is None ==> self.nodes@[n.0 as int].parent is None)
        }
        &&& before.kids@[p.0 as int].len() <= self.kids@[p.0 as int].len()
        &&& self.kids@[p.0 as int].subrange(0, before.kids@[p.0 as int].len() as int) == before.kids@[p.0 as int]
    }
}


impl Document {
    /// The children of `p` are those it had in `before`, followed by live nodes
    /// holding `items`, in order.
    pub open spec fn appended_items(&self, before: Document, p: NodeId, items: Seq<FragItem>) -> bool {
        &&& self.kids@[p.0 as int].len() == before.kids@[p.0 as int].len() + items.len()
        &&& forall|k: int| 0 <= k < items.len() ==> {
            let n = #[trigger] self.kids@[p.0 as int][before.kids@[p.0 as int].len() + k];
            &&& self.live(n)
            &&& holds_item(self.nodes@[n.0 as int], items[k])
        }
    }

    proof fn lemma_items_push(a: Document, b: Document, c: Document, p: NodeId, acc: Seq<FragItem>, x: NodeId, item: FragItem)
        requires
            b.appended_items(a, p, acc),
            b.appended_under(a, p),
            c.appended_under(b, p),
            c.kids@[p.0 as int] == b.kids@[p.0 as int].push(x),
            c.live(x),
            holds_item(c.nodes@[x.0 as int], item),
        ensures
            c.appended_items(a, p, acc.push(item)),
    {
        let la = a.kids@[p.0 as int].len();
        assert forall|k: int| 0 <= k < acc.len() + 1 implies {
            let n = #[trigger] c.kids@[p.0 as int][la + k];
            &&& c.live(n)
            &&& holds_item(c.nodes@[n.0 as int], acc.push(item)[k])
        } by {
            if k < acc.len() {
                let n = b.kids@[p.0 as int][la + k];
                assert(c.kids@[p.0 as int][la + k] == n);
                assert(b.live(n));
                assert(holds_item(b.nodes@[n.0 as int], acc[k]));
            }
        }
    }

    proof fn lemma_items_keep(a: Document, b: Document, c: Document, p: NodeId, x: NodeId, acc: Seq<FragItem>)
        requires
            b.appended_items(a, p, acc),
            c.appended_under(b, x),
            x != p,
            b.live(p),
        ensures
            c.appended_items(a, p, acc),
    {
        let la = a.kids@[p.0 as int].len();
        assert(c.kids@[p.0 as int] == b.kids@[p.0 as int]);
        assert forall|k: int| 0 <= k < acc.len() implies {
            let n = #[trigger] c.kids@[p.0 as int][la + k];
            &&& c.live(n)
            &&& holds_item(c.nodes@[n.0 as int], acc[k])
        } by {
            let n = b.kids@[p.0 as int][la + k];
            assert(b.live(n));
            assert(holds_item(b.nodes@[n.0 as int], acc[k]));
        }
    }
}

impl Document {
    /// Extension of `appended_under` is transitive.
    proof fn lemma_appended_trans(a: Document, b: Document, c: Document, p: NodeId)
        requires
            b.appended_under(a, p),
            c.appended_under(b, p),
        ensures
            c.appended_under(a, p),
    {
        assert forall|n: NodeId| #[trigger] a.live(n) implies {
            &&& c.live(n)
            &&& super::same_payload(c.nodes@[n.0 as int], a.nodes@[n.0 as int])
            &&& (n != p ==> c.kids@[n.0 as int] == a.kids@[n.0 as int])
            &&& (a.nodes@[n.0 as int].parent is None ==> c.nodes@[n.0 as int].parent is None)
        } by {
            assert(b.live(n));
        }
        let la = a.kids@[p.0 as int].len() as int;
        let lb = b.kids@[p.0 as int].len() as int;
        assert(c.kids@[p.0 as int].subrange(0, la) =~= c.kids@[p.0 as int].subrange(0, lb).subrange(0, la));
    }

    /// Growth under a node `x` that was not live in `a` leaves the children of any
    /// node live in `a` untouched.
    proof fn lemma_appended_other(a: Document, b: Document, c: Document, x: NodeId, p: NodeId)
        requires
            b.appended_under(a, p),
            c.appended_under(b, x),
            !a.live(x),
            a.live(p),
        ensures
            c.appended_under(a, p),
    {
        assert(b.live(p));
        assert(p != x) by {
            if p == x {
                assert(!a.live(x));
            }
        }
        assert forall|n: NodeId| #[trigger] a.live(n) implies {
            &&& c.live(n)
            &&& super::same_payload(c.nodes@[n.0 as int], a.nodes@[n.0 as int])
            &&& (n != p ==> c.kids@[n.0 as int] == a.kids@[n.0 as int])
            &&& (a.nodes@[n.0 as int].parent is None ==> c.nodes@[n.0 as int].parent is None)
        } by {
            assert(b.live(n));
            if n == x {
                assert(!a.live(x));
            }
        }
        assert(c.kids@[p.0 as int] == b.kids@[p.0 as int]);
    }

    /// Allocates a fresh node holding `kind` and appends it as the last child of `parent`.
    fn append_new(&mut self, parent: NodeId, kind: NodeKind) -> (x: NodeId)
        requires
            old(self).wf(),
            old(self).live(parent),
        ensures
            final(self).wf(),
            final(self).appended_under(*old(self), parent),
            final(self).live(x),
            !old(self).live(x),
            final(self).kids@[x.0 as int].len() == 0,
            final(self).nodes@[x.0 as int].kind == kind,
            final(self).kids@[parent.0 as int] == old(self).kids@[parent.0 as int].push(x),
            final(self).mutation_observers == old(self).mutation_observers,
    {
        let ghost a = *self;
        let x = self.alloc_node(NodeData::new(kind));
        proof {
            assert(self.node_links_ok(x.0 as int));
            if a.free_list@.len() > 0 {
                let q = a.free_list@.len() - 1;
                assert(a.nodes@[a.free_list@[q] as int].freed);
                assert(a.free_list_ok());
                assert(a.kids@[x.0 as int].len() == 0);
            }
            assert(x != parent);
        }
        let ghost b = *self;
        self.attach_child(parent, x);
        proof {
            assert(self.kids@ == super::tree::kids_appended(b.kids@, None, parent, x));
            assert forall|n: NodeId| #[trigger] a.live(n) implies {
                &&& self.live(n)
                &&& super::same_payload(self.nodes@[n.0 as int], a.nodes@[n.0 as int])
                &&& (n != parent ==> self.kids@[n.0 as int] == a.kids@[n.0 as int])
                &&& (a.nodes@[n.0 as int].parent is None ==> self.nodes@[n.0 as int].parent is None)
            } by {
                assert(n.0 != x.0);
                assert(b.nodes@[n.0 as int] == a.nodes@[n.0 as int]);
                if a.nodes@[n.0 as int].parent is None {
                    Document::lemma_append_keeps_orphan(b, *self, parent, x, n);
                }
            }
            assert(self.kids@[parent.0 as int].subrange(0, a.kids@[parent.0 as int].len() as int) =~= a.kids@[parent.0 as int]);
        }
        x
    }
}


/// The element data of an open tag: void when self-closing or a void tag; the
/// attributes in order; the id is the last `id` value; the class list gathers the
/// names of every `class` value.
fn element_from(tag: &String, attrs: &Vec<(String, String)>, self_closing: bool) -> (r: (ElementData, bool))
    ensures
        r.1 == (self_closing || is_void_tag(tag@)),
        r.0.tag@ == tag@,
        r.0.self_closing == r.1,
        super::attributes::attrs_view(r.0.attributes@) == super::attributes::attrs_view(attrs@),
{
    let is_void = self_closing || is_void_element(tag.as_str());
    let mut el = if is_void { ElementData::new_void(tag.as_str()) } else { ElementData::new(tag.as_str()) };
    let mut i: usize = 0;
    while i < attrs.len()
        invariant
            i <= attrs@.len(),
            el.tag@ == tag@,
            el.self_closing == is_void,
            super::attributes::attrs_view(el.attributes@) == super::attributes::attrs_view(attrs@.subrange(0, i as int)),
        decreases attrs@.len() - i,
    {
        let name = &attrs[i].0;
        let value = &attrs[i].1;
        if str_eq(name.as_str(), "id") {
            el.id = Some(value.clone());
        }
        if str_eq(name.as_str(), "class") {
            let pieces = split_on_spaces(value.as_str());
            let mut k: usize = 0;
            while k < pieces.len()
                invariant
                    k <= pieces@.len(),
                    el.tag@ == tag@,
                    el.self_closing == is_void,
                    super::attributes::attrs_view(el.attributes@) == super::attributes::attrs_view(attrs@.subrange(0, i as int)),
                decreases pieces@.len() - k,
            {
                el.class_list.push(pieces[k].clone());
                k += 1;
            }
        }
        let ghost before = el.attributes@;
        let pair = (name.clone(), value.clone());
        el.attributes.push(pair);
        proof {
            assert(pair == attrs@[i as int]);
            assert(super::attributes::attrs_view(el.attributes@) =~= super::attributes::attrs_view(before).push((pair.0@, pair.1@)));
            assert(super::attributes::attrs_view(attrs@.subrange(0, i + 1)) =~= super::attributes::attrs_view(attrs@.subrange(0, i as int)).push((pair.0@, pair.1@)));
        }
        i += 1;
    }
    proof { assert(attrs@.subrange(0, attrs@.len() as int) =~= attrs@); }
    (el, is_void)
}

impl Document {
    /// Parses tokens into children of `parent` until the end of the input or, when
    /// `close` names a tag, the matching close tag.
    fn parse_into(&mut self, parent: NodeId, parser: &mut FragmentParser, close: Option<&str>)
        requires
            old(self).wf(),
            old(self).live(parent),
            old(parser).ok(),
        ensures
            final(self).wf(),
            final(self).appended_under(*old(self), parent),
            final(parser).ok(),
            final(parser).rest() <= old(parser).rest(),
            old(parser).rest() == 0 ==> *final(self) == *old(self),
            final(self).mutation_observers == old(self).mutation_observers,
            final(parser).cs == old(parser).cs,
            final(parser).pos == frag_items(old(parser).cs@, old(parser).pos as int, close_view(close)).1,
            final(self).appended_items(*old(self), parent, frag_items(old(parser).cs@, old(parser).pos as int, close_view(close)).0),
        decreases old(parser).rest(),
    {
        let ghost a = *self;
        let ghost cs = parser.cs@;
        let ghost cv = close_view(close);
        let ghost p_start = parser.pos as int;
        let ghost mut acc: Seq<FragItem> = Seq::empty();
        proof {
            assert(self.kids@[parent.0 as int].subrange(0, self.kids@[parent.0 as int].len() as int) =~= self.kids@[parent.0 as int]);
            assert(Seq::<FragItem>::empty() + frag_items(cs, p_start, cv).0 =~= frag_items(cs, p_start, cv).0);
        }
        loop
            invariant_except_break
                frag_items(cs, p_start, cv) == (acc + frag_items(cs, parser.pos as int, cv).0, frag_items(cs, parser.pos as int, cv).1),
            invariant
                a.wf(),
                a.live(parent),
                self.wf(),
                self.live(parent),
                self.appended_under(a, parent),
                parser.ok(),
                parser.rest() <= old(parser).rest(),
                old(parser).rest() == 0 ==> *self == a,
                self.mutation_observers == a.mutation_observers,
                a == *old(self),
                parser.cs == old(parser).cs,
                cs == parser.cs@,
                cv == close_view(close),
                p_start == old(parser).pos,
                self.appended_items(a, parent, acc),
            ensures
                frag_items(cs, p_start, cv) == (acc, parser.pos as int),
            decreases parser.rest(),
        {
            let ghost r0 = parser.rest();
            let ghost p0 = parser.pos as int;
            let tok = parser.next_token();
            match tok {
                None => {
                    proof { assert(acc + Seq::<FragItem>::empty() =~= acc); }
                    break;
                },
                Some(FragmentToken::CloseTag { tag }) => {
                    match close {
                        Some(t) => {
                            if str_eq(tag.as_str(), t) {
                                proof { assert(acc + Seq::<FragItem>::empty() =~= acc); }
                                break;
                            }
                        },
                        None => {},
                    }
                },
                Some(FragmentToken::OpenTag { tag, attrs, self_closing }) => {
                    let (el, is_void) = element_from(&tag, &attrs, self_closing);
                    let ghost item = FragItem::Element(tag@, pairs_view(attrs@), is_void);
                    let id_opt = match &el.id {
                        Some(v) => Some(v.clone()),
                        None => None,
                    };
                    let ghost b = *self;
                    let x = self.append_new(parent, NodeKind::Element(el));
                    match id_opt {
                        Some(v) => {
                            let ghost c = *self;
                            self.id_index.insert(v, x);
                            proof { Document::lemma_wf_same_links(c, *self); }
                        },
                        None => {},
                    }
                    proof {
                        Document::lemma_appended_trans(a, b, *self, parent);
                        Document::lemma_items_push(a, b, *self, parent, acc, x, item);
                    }
                    if !is_void {
                        let ghost c = *self;
                        self.parse_into(x, parser, Some(tag.as_str()));
                        proof {
                            Document::lemma_appended_other(b, c, *self, x, parent);
                            Document::lemma_appended_trans(a, b, *self, parent);
                            Document::lemma_items_keep(a, c, *self, parent, x, acc.push(item));
                        }
                    }
                    proof {
                        let r = frag_items(cs, parser.pos as int, cv);
                        assert(acc.push(item) + r.0 =~= acc + (seq![item] + r.0));
                        acc = acc.push(item);
                    }
                },
                Some(FragmentToken::Text(text)) => {
                    if !text.as_str().is_empty() {
                        let decoded = decode_entities(text.as_str());
                        let ghost item = FragItem::Text(decoded@);
                        let ghost b = *self;
                        self.append_new(parent, NodeKind::Text(decoded));
                        proof {
                            let x = self.kids@[parent.0 as int].last();
                            Document::lemma_appended_trans(a, b, *self, parent);
                            Document::lemma_items_push(a, b, *self, parent, acc, x, item);
                            let r = frag_items(cs, parser.pos as int, cv);
                            assert(acc.push(item) + r.0 =~= acc + (seq![item] + r.0));
                            acc = acc.push(item);
                        }
                    }
                },
                Some(FragmentToken::Comment(text)) => {
                    let ghost item = FragItem::Comment(text@);
                    let ghost b = *self;
                    self.append_new(parent, NodeKind::Comment(text));
                    proof {
                        let x = self.kids@[parent.0 as int].last();
                        Document::lemma_appended_trans(a, b, *self, parent);
                        Document::lemma_items_push(a, b, *self, parent, acc, x, item);
                        let r = frag_items(cs, parser.pos as int, cv);
                        assert(acc.push(item) + r.0 =~= acc + (seq![item] + r.0));
                        acc = acc.push(item);
                    }
                },
            }
        }
    }

    /// Parses an HTML fragment and appends the resulting nodes as children of
    /// `parent`; observers of `parent` get one child-list record (none for empty input).
    pub fn parse_html_fragment(&mut self, parent: NodeId, html: &str)
        requires
            old(self).wf(),
            old(self).live(parent),
        ensures
            final(self).wf(),
            final(self).appended_under(*old(self), parent),
            html@.len() == 0 ==> *final(self) == *old(self),
            html@.len() > 0 ==> final(self).child_list_recorded(old(self).mutation_observers@, parent),
            final(self).appended_items(*old(self), parent, frag_items(html@, 0, None).0),
    {
        self.append_fragment(parent, html);
        if !html.is_empty() {
            let ghost b = *self;
            self.record_child_list(parent);
            proof { assert(self.appended_under(b, parent)) by {
                assert(self.kids@[parent.0 as int].subrange(0, b.kids@[parent.0 as int].len() as int) =~= self.kids@[parent.0 as int]);
            } Document::lemma_appended_trans(*old(self), b, *self, parent); }
        }
    }

    /// Parses an HTML fragment and appends the resulting nodes as children of
    /// `parent`, recording nothing.
    pub(crate) fn append_fragment(&mut self, parent: NodeId, html: &str)
        requires
            old(self).wf(),
            old(self).live(parent),
        ensures
            final(self).wf(),
            final(self).appended_under(*old(self), parent),
            html@.len() == 0 ==> *final(self) == *old(self),
            final(self).mutation_observers == old(self).mutation_observers,
            final(self).appended_items(*old(self), parent, frag_items(html@, 0, None).0),
    {
        let mut parser = FragmentParser::new(html);
        self.parse_into(parent, &mut parser, None);
    }

    /// Replaces the children of a node by the nodes parsed from an HTML string.
    pub fn set_inner_html(&mut self, id: NodeId, html: &str)
        requires
            old(self).wf(),
            old(self).valid(id),
        ensures
            final(self).wf(),
            final(self).root == old(self).root,
            final(self).valid(id),
            html@.len() == 0 ==> final(self).kids@[id.0 as int].len() == 0,
            exists|cleared: Document| #![auto] cleared.wf() && cleared.valid(id) && cleared.kids@[id.0 as int].len() == 0
                && final(self).appended_under(cleared, id),
            final(self).child_list_recorded(old(self).mutation_observers@, id),
            !final(self).nodes@[id.0 as int].freed ==> {
                let items = frag_items(html@, 0, None).0;
                &&& final(self).kids@[id.0 as int].len() == items.len()
                &&& forall|k: int| 0 <= k < items.len() ==> {
                    let n = #[trigger] final(self).kids@[id.0 as int][k];
                    &&& final(self).live(n)
                    &&& holds_item(final(self).nodes@[n.0 as int], items[k])
                }
            },
    {
        loop
            invariant
                self.wf(),
                self.valid(id),
                self.root == old(self).root,
                self.mutation_observers == old(self).mutation_observers,
            ensures
                self.kids@[id.0 as int].len() == 0,
            decreases self.kids@[id.0 as int].len(),
        {
            let first = self.first_child(id);
            match first {
                None => {
                    break;
                },
                Some(c) => {
                    proof {
                        assert(self.child_links_ok(id.0 as int, 0));
                        assert(self.kids@[id.0 as int][0] == c);
                    }
                    self.discard_node(c);
                },
            }
        }
        let ghost cleared = *self;
        if !self.nodes[id.0].freed {
            self.append_fragment(id, html);
            proof {
                let items = frag_items(html@, 0, None).0;
                assert forall|k: int| 0 <= k < items.len() implies {
                    let n = #[trigger] self.kids@[id.0 as int][k];
                    &&& self.live(n)
                    &&& holds_item(self.nodes@[n.0 as int], items[k])
                } by {
                    assert(self.kids@[id.0 as int][cleared.kids@[id.0 as int].len() + k] == self.kids@[id.0 as int][k]);
                }
            }
        } else {
            proof {
                assert(self.kids@[id.0 as int].subrange(0, 0) =~= self.kids@[id.0 as int]);
            }
        }
        proof { assert(self.appended_under(cleared, id)); }
        self.record_child_list(id);
        proof { assert(self.appended_under(cleared, id)); }
    }
}

} // verus!
