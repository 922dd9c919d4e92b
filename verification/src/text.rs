//! Byte- and character-level helpers shared by the DOM and the compiler.

use vstd::prelude::*;
use vstd::string::StringSliceAdditionalSpecFns;
use vstd::string::StrSliceExecFns;
use vstd::string::StringExecFns;

verus! {

/// Compares two string slices for equality.
pub fn str_eq(a: &str, b: &str) -> (res: bool)
    ensures
        res == (a@ == b@),
{
    broadcast use vstd::utf8::encode_utf8_decode_utf8;
    let ab = a.as_bytes();
    let bb = b.as_bytes();
    if ab.len() != bb.len() {
        assert(a.spec_bytes().len() != b.spec_bytes().len());
        return false;
    }
    let mut i: usize = 0;
    while i < ab.len()
        invariant
            ab@ == a.spec_bytes(),
            bb@ == b.spec_bytes(),
            ab.len() == bb.len(),
            i <= ab.len(),
            forall|k: int| 0 <= k < i ==> ab@[k] == bb@[k],
        decreases ab.len() - i,
    {
        if ab[i] != bb[i] {
            return false;
        }
        i = i + 1;
    }
    assert(a.spec_bytes() =~= b.spec_bytes());
    assert(vstd::utf8::decode_utf8(vstd::utf8::encode_utf8(a@)) == a@);
    assert(vstd::utf8::decode_utf8(vstd::utf8::encode_utf8(b@)) == b@);
    true
}


/// The decimal digits of `n`.
pub open spec fn decimal(n: nat) -> Seq<char>
    decreases n,
{
    if n < 10 {
        seq![(n + 48) as char]
    } else {
        decimal(n / 10).push(((n % 10) + 48) as char)
    }
}

/// Appends the decimal digits of `n`.
pub fn push_decimal(s: &mut String, n: usize)
    ensures
        final(s)@ == old(s)@ + decimal(n as nat),
    decreases n,
{
    if n >= 10 {
        push_decimal(s, n / 10);
    }
    let d = (n % 10) as u8;
    s.push((d + 48) as char);
    proof {
        assert(s@ =~= old(s)@ + decimal(n as nat));
    }
}

} // verus!

verus! {

/// `String::push` appends one character.
pub assume_specification[ String::push ](s: &mut String, ch: char)
    ensures
        final(s)@ == old(s)@.push(ch),
;

/// The characters of `s`, in order.
pub fn chars_of(s: &str) -> (r: Vec<char>)
    ensures
        r@ == s@,
{
    let n = s.unicode_len();
    let mut out: Vec<char> = Vec::new();
    let mut i: usize = 0;
    while i < n
        invariant
            n == s@.len(),
            i <= n,
            out@ == s@.subrange(0, i as int),
        decreases n - i,
    {
        let c = s.get_char(i);
        out.push(c);
        i += 1;
        proof { assert(out@ =~= s@.subrange(0, i as int)); }
    }
    proof { assert(s@.subrange(0, n as int) =~= s@); }
    out
}

/// A `String` holding the characters `cs[from..to]`.
pub fn string_of(cs: &Vec<char>, from: usize, to: usize) -> (r: String)
    requires
        from <= to <= cs@.len(),
    ensures
        r@ == cs@.subrange(from as int, to as int),
{
    let mut out = String::new();
    let mut i = from;
    while i < to
        invariant
            from <= i <= to <= cs@.len(),
            out@ == cs@.subrange(from as int, i as int),
        decreases to - i,
    {
        out.push(cs[i]);
        i += 1;
        proof { assert(out@ =~= cs@.subrange(from as int, i as int)); }
    }
    out
}

/// Appends `t` to `s`.
pub fn push_str(s: &mut String, t: &str)
    ensures
        final(s)@ == old(s)@ + t@,
{
    s.append(t);
}

} // verus!

verus! {

/// Whether std classifies `c` as alphanumeric (`char::is_alphanumeric`).
pub uninterp spec fn alphanumeric(c: char) -> bool;

/// Whether std classifies `c` as alphabetic (`char::is_alphabetic`).
pub uninterp spec fn alphabetic(c: char) -> bool;

/// An ASCII letter.
pub open spec fn ascii_letter(c: char) -> bool {
    ('a' <= c <= 'z') || ('A' <= c <= 'Z')
}

/// An ASCII decimal digit.
pub open spec fn ascii_digit(c: char) -> bool {
    '0' <= c <= '9'
}

/// `char::is_alphanumeric`: alphabetic or numeric in the Unicode sense; on ASCII
/// exactly the letters and digits.
#[verifier::external_body]
pub fn is_alphanumeric(c: char) -> (r: bool)
    ensures
        r == alphanumeric(c),
        (c as u32) < 128 ==> (r == (ascii_letter(c) || ascii_digit(c))),
{
    c.is_alphanumeric()
}

/// `char::is_alphabetic`: alphabetic in the Unicode sense (so also alphanumeric);
/// on ASCII exactly the letters.
#[verifier::external_body]
pub fn is_alphabetic(c: char) -> (r: bool)
    ensures
        r == alphabetic(c),
        r ==> alphanumeric(c),
        (c as u32) < 128 ==> (r == ascii_letter(c)),
{
    c.is_alphabetic()
}

} // verus!

verus! {

/// `v` occurs in `s` at position `i`.
pub open spec fn occurs_at(s: Seq<char>, v: Seq<char>, i: int) -> bool {
    0 <= i && i + v.len() <= s.len() && s.subrange(i, i + v.len()) == v
}

/// `v` occurs somewhere in `s`.
pub open spec fn occurs_in(s: Seq<char>, v: Seq<char>) -> bool {
    exists|i: int| occurs_at(s, v, i)
}

/// Whether `v` occurs in `s` at position `i`.
pub fn chars_at(s: &Vec<char>, i: usize, v: &Vec<char>) -> (r: bool)
    ensures
        r == occurs_at(s@, v@, i as int),
{
    let n = s.len();
    if i > n || n - i < v.len() {
        return false;
    }
    let mut k: usize = 0;
    while k < v.len()
        invariant
            n == s@.len(),
            i + v@.len() <= n,
            k <= v@.len(),
            forall|j: int| 0 <= j < k ==> s@[i + j] == v@[j],
        decreases v@.len() - k,
    {
        if s[i + k] != v[k] {
            proof { assert(s@.subrange(i as int, i + v@.len())[k as int] != v@[k as int]); }
            return false;
        }
        k += 1;
    }
    proof { assert(s@.subrange(i as int, i + v@.len()) =~= v@); }
    true
}

/// Whether `s` starts with `v`.
pub fn starts_with(s: &str, v: &str) -> (r: bool)
    ensures
        r == occurs_at(s@, v@, 0),
{
    let sc = chars_of(s);
    let vc = chars_of(v);
    chars_at(&sc, 0, &vc)
}

/// Whether `s` ends with `v`.
pub fn ends_with(s: &str, v: &str) -> (r: bool)
    ensures
        r == (v@.len() <= s@.len() && occurs_at(s@, v@, s@.len() - v@.len())),
{
    let sc = chars_of(s);
    let vc = chars_of(v);
    if vc.len() > sc.len() {
        return false;
    }
    chars_at(&sc, sc.len() - vc.len(), &vc)
}

/// Whether `v` occurs in `s`.
pub fn contains(s: &str, v: &str) -> (r: bool)
    ensures
        r == occurs_in(s@, v@),
{
    let sc = chars_of(s);
    let vc = chars_of(v);
    if vc.len() > sc.len() {
        proof {
            assert forall|i: int| !occurs_at(s@, v@, i) by {}
        }
        return false;
    }
    let last = sc.len() - vc.len();
    let mut i: usize = 0;
    while i <= last
        invariant
            sc@ == s@,
            vc@ == v@,
            last == sc@.len() - vc@.len(),
            forall|j: int| 0 <= j < i ==> !occurs_at(s@, v@, j),
        decreases last + 1 - i,
    {
        if chars_at(&sc, i, &vc) {
            return true;
        }
        if i == last {
            proof {
                assert forall|j: int| !occurs_at(s@, v@, j) by {
                    if 0 <= j && j + v@.len() <= s@.len() {
                        assert(j <= last);
                    }
                }
            }
            return false;
        }
        i += 1;
    }
    false
}

} // verus!

verus! {

/// A Unicode scalar value: not a surrogate and at most `0x10FFFF`.
pub open spec fn is_scalar(code: u32) -> bool {
    code < 0xD800 || (0xE000 <= code && code <= 0x10FFFF)
}

/// `char::from_u32`: the character with this code, when the code is a scalar value.
#[verifier::external_body]
pub fn char_from_u32(code: u32) -> (r: Option<char>)
    ensures
        r is Some <==> is_scalar(code),
        r matches Some(c) ==> c as u32 == code && c == code as char,
{
    char::from_u32(code)
}

} // verus!

verus! {

/// A Unicode `White_Space` character (what `str::trim` removes).
pub open spec fn is_unicode_ws(c: char) -> bool {
    ('\u{9}' <= c <= '\u{d}') || c == ' ' || c == '\u{85}' || c == '\u{a0}' || c == '\u{1680}'
        || ('\u{2000}' <= c <= '\u{200a}') || c == '\u{2028}' || c == '\u{2029}' || c == '\u{202f}'
        || c == '\u{205f}' || c == '\u{3000}'
}

/// Whether `c` is Unicode white space.
pub fn unicode_ws(c: char) -> (r: bool)
    ensures
        r == is_unicode_ws(c),
{
    ('\u{9}' <= c && c <= '\u{d}') || c == ' ' || c == '\u{85}' || c == '\u{a0}' || c == '\u{1680}'
        || ('\u{2000}' <= c && c <= '\u{200a}') || c == '\u{2028}' || c == '\u{2029}' || c == '\u{202f}'
        || c == '\u{205f}' || c == '\u{3000}'
}

/// The first position in `[from, to)` of `s` that is not white space (or `to`).
pub open spec fn trim_lo(s: Seq<char>, from: int, to: int) -> int
    decreases to - from,
{
    if from >= to { to } else if is_unicode_ws(s[from]) { trim_lo(s, from + 1, to) } else { from }
}

/// One past the last position in `[from, to)` of `s` that is not white space (or `from`).
pub open spec fn trim_hi(s: Seq<char>, from: int, to: int) -> int
    decreases to - from,
{
    if from >= to { from } else if is_unicode_ws(s[to - 1]) { trim_hi(s, from, to - 1) } else { to }
}

/// `s[from..to]` without leading and trailing white space.
pub open spec fn trimmed(s: Seq<char>, from: int, to: int) -> Seq<char> {
    let lo = trim_lo(s, from, to);
    s.subrange(lo, trim_hi(s, lo, to))
}

proof fn lemma_trim_lo(s: Seq<char>, from: int, to: int)
    requires
        0 <= from <= to <= s.len(),
    ensures
        from <= trim_lo(s, from, to) <= to,
    decreases to - from,
{
    if from < to && is_unicode_ws(s[from]) {
        lemma_trim_lo(s, from + 1, to);
    }
}

proof fn lemma_trim_hi(s: Seq<char>, from: int, to: int)
    requires
        0 <= from <= to <= s.len(),
    ensures
        from <= trim_hi(s, from, to) <= to,
    decreases to - from,
{
    if from < to && is_unicode_ws(s[to - 1]) {
        lemma_trim_hi(s, from, to - 1);
    }
}

/// The bounds of `cs[from..to]` with white space trimmed off both ends.
pub fn trim_bounds(cs: &Vec<char>, from: usize, to: usize) -> (r: (usize, usize))
    requires
        from <= to <= cs@.len(),
    ensures
        r.0 as int == trim_lo(cs@, from as int, to as int),
        r.1 as int == trim_hi(cs@, r.0 as int, to as int),
        from <= r.0 <= r.1 <= to,
{
    proof { lemma_trim_lo(cs@, from as int, to as int); }
    let mut lo = from;
    while lo < to && unicode_ws(cs[lo])
        invariant
            from <= lo <= to <= cs@.len(),
            trim_lo(cs@, from as int, to as int) == trim_lo(cs@, lo as int, to as int),
        decreases to - lo,
    {
        lo += 1;
    }
    proof { lemma_trim_hi(cs@, lo as int, to as int); }
    let mut hi = to;
    while hi > lo && unicode_ws(cs[hi - 1])
        invariant
            lo <= hi <= to <= cs@.len(),
            trim_hi(cs@, lo as int, to as int) == trim_hi(cs@, lo as int, hi as int),
        decreases hi - lo,
    {
        hi -= 1;
    }
    (lo, hi)
}

/// `s` without leading and trailing white space (`str::trim`).
pub fn trim_str(s: &str) -> (r: String)
    ensures
        r@ == trimmed(s@, 0, s@.len() as int),
{
    let cs = chars_of(s);
    let (lo, hi) = trim_bounds(&cs, 0, cs.len());
    string_of(&cs, lo, hi)
}

/// The number of bytes UTF-8 uses for `c`.
pub open spec fn utf8_len(c: char) -> int {
    if (c as u32) < 0x80 { 1 } else if (c as u32) < 0x800 { 2 } else if (c as u32) < 0x10000 { 3 } else { 4 }
}

} // verus!

verus! {

/// `String::from_utf8_lossy`: the text of valid UTF-8 bytes (invalid sequences
/// become U+FFFD, which the contract leaves unsaid).
#[verifier::external_body]
pub fn utf8_lossy(v: &[u8]) -> (r: String)
    ensures
        vstd::utf8::valid_utf8(v@) ==> r@ == vstd::utf8::decode_utf8(v@),
{
    String::from_utf8_lossy(v).into_owned()
}

/// `std::str::from_utf8`: the text of `v` when `v` is valid UTF-8, and nothing
/// otherwise.
#[verifier::external_body]
pub fn str_from_utf8(v: &[u8]) -> (r: Option<String>)
    ensures
        r is Some <==> vstd::utf8::valid_utf8(v@),
        r matches Some(s) ==> s@ == vstd::utf8::decode_utf8(v@),
{
    match std::str::from_utf8(v) {
        Ok(s) => Some(s.to_owned()),
        Err(_) => None,
    }
}

/// The characters with the values of the bytes `b[from..to]`.
pub open spec fn bytes_as_chars(b: Seq<u8>, from: int, to: int) -> Seq<char> {
    Seq::new((to - from) as nat, |i: int| b[from + i] as char)
}

/// A `String` of the characters with the values of the bytes `b[from..to]`
/// (the text itself when those bytes are ASCII).
pub fn string_of_bytes(b: &[u8], from: usize, to: usize) -> (r: String)
    requires
        from <= to <= b@.len(),
    ensures
        r@ == bytes_as_chars(b@, from as int, to as int),
{
    let mut out = String::new();
    let mut i = from;
    while i < to
        invariant
            from <= i <= to <= b@.len(),
            out@ == bytes_as_chars(b@, from as int, i as int),
        decreases to - i,
    {
        out.push(b[i] as char);
        i += 1;
        proof { assert(out@ =~= bytes_as_chars(b@, from as int, i as int)); }
    }
    out
}

/// Decoding UTF-8 gives at most one character per byte.
pub proof fn lemma_decode_len(bytes: Seq<u8>)
    requires
        vstd::utf8::valid_utf8(bytes),
    ensures
        vstd::utf8::decode_utf8(bytes).len() <= bytes.len(),
    decreases bytes.len(),
{
    if bytes.len() != 0 {
        let w = vstd::utf8::length_of_first_scalar(bytes);
        assert(1 <= w <= bytes.len());
        let rest = vstd::utf8::pop_first_scalar(bytes);
        assert(rest.len() == bytes.len() - w);
        lemma_decode_len(rest);
    }
}


} // verus!
