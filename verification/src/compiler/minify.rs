//! Compactors for generated Rust and JavaScript. They are conservative: literal
//! contents are kept as they are, comments are removed, each run of white space
//! (and comments) becomes one ASCII space, and an unterminated comment or
//! literal is an error.

use vstd::prelude::*;
use vstd::string::StringSliceAdditionalSpecFns;
use super::scanner::is_ws_byte;
use super::{line_col, line_col_at};
use crate::text::{str_from_utf8, trim_str, trimmed};

verus! {

/// Why compaction failed, and where.
#[derive(Debug, Clone, Copy)]
pub struct MinifyError {
    pub kind: &'static str,
    pub offset: usize,
    pub line: usize,
    pub col: usize,
}

/// What a compactor computes: the output bytes, or the offset and kind of the
/// first error.
pub type MinifyOutcome = Result<Seq<u8>, (int, &'static str)>;

/// `pre` in front of an output; an error stays as it is.
pub open spec fn then_prepend(pre: Seq<u8>, r: MinifyOutcome) -> MinifyOutcome {
    match r {
        Ok(x) => Ok(pre + x),
        Err(e) => Err(e),
    }
}

/// The single space that stands for skipped white space and comments.
pub open spec fn gap(c: bool) -> Seq<u8> {
    if c { seq![0x20u8] } else { Seq::empty() }
}

/// The first newline at or after `j`, or the end.
pub open spec fn newline_from(b: Seq<u8>, j: int) -> int
    decreases b.len() - j,
{
    if j >= b.len() || b[j] == 0x0A { j } else { newline_from(b, j + 1) }
}

/// The end of a nested block comment whose text starts at `j` at depth `depth`
/// (after the `*/` that closes it), or -1 when it is not closed.
pub open spec fn nested_comment_end(b: Seq<u8>, j: int, depth: int) -> int
    decreases b.len() - j,
{
    if j >= b.len() {
        -1
    } else if b.len() - j > 1 && b[j] == 0x2F && b[j + 1] == 0x2A {
        nested_comment_end(b, j + 2, depth + 1)
    } else if b.len() - j > 1 && b[j] == 0x2A && b[j + 1] == 0x2F {
        if depth <= 1 { j + 2 } else { nested_comment_end(b, j + 2, depth - 1) }
    } else {
        nested_comment_end(b, j + 1, depth)
    }
}

/// The end of a (non-nested) block comment whose text starts at `j`, or -1.
pub open spec fn block_end(b: Seq<u8>, j: int) -> int
    decreases b.len() - j,
{
    if b.len() - j <= 1 {
        -1
    } else if b[j] == 0x2A && b[j + 1] == 0x2F {
        j + 2
    } else {
        block_end(b, j + 1)
    }
}

/// The number of `#` from `k` on.
pub open spec fn hashes_from(b: Seq<u8>, k: int) -> int
    decreases b.len() - k,
{
    if 0 <= k < b.len() && b[k] == 0x23 { 1 + hashes_from(b, k + 1) } else { 0 }
}

/// Where the `#`s of a raw string prefix at `i` (`r` or `br`) start.
pub open spec fn raw_hash_start(b: Seq<u8>, i: int) -> int {
    if b[i] == 0x62 { i + 2 } else { i + 1 }
}

/// The opening quote of a raw string (`r#"`, `br#"`, ...) starting at `i`, or -1.
pub open spec fn raw_open(b: Seq<u8>, i: int) -> int {
    if b[i] == 0x72 || (b[i] == 0x62 && i + 1 < b.len() && b[i + 1] == 0x72) {
        let k = raw_hash_start(b, i);
        let q = k + hashes_from(b, k);
        if q < b.len() && b[q] == 0x22 { q } else { -1 }
    } else {
        -1
    }
}

/// A quote at `j` followed by `h` hashes.
pub open spec fn closes_raw(b: Seq<u8>, j: int, h: int) -> bool {
    b[j] == 0x22 && j + 1 + h <= b.len() && forall|u: int| j + 1 <= u < j + 1 + h ==> #[trigger] b[u] == 0x23
}

/// The end of a raw string body from `j` closed by a quote and `h` hashes, or -1.
pub open spec fn raw_close(b: Seq<u8>, j: int, h: int) -> int
    decreases b.len() - j,
{
    if j < 0 || j >= b.len() {
        -1
    } else if closes_raw(b, j, h) {
        j + 1 + h
    } else {
        raw_close(b, j + 1, h)
    }
}

/// The end of a quoted literal whose contents start at `j` (after the closing
/// quote `q`); -1 when it ends in a lone backslash, -2 when it runs out.
pub open spec fn str_close(b: Seq<u8>, j: int, q: u8) -> int
    decreases b.len() - j,
{
    if j >= b.len() {
        -2
    } else if b[j] == 0x5C {
        if j + 1 < b.len() { str_close(b, j + 2, q) } else { -1 }
    } else if b[j] == q {
        j + 1
    } else {
        str_close(b, j + 1, q)
    }
}

pub proof fn lemma_newline_from(b: Seq<u8>, j: int)
    requires
        0 <= j <= b.len(),
    ensures
        j <= newline_from(b, j) <= b.len(),
    decreases b.len() - j,
{
    if j < b.len() && b[j] != 0x0A {
        lemma_newline_from(b, j + 1);
    }
}

pub proof fn lemma_nested_comment_end(b: Seq<u8>, j: int, depth: int)
    requires
        0 <= j,
    ensures
        nested_comment_end(b, j, depth) >= 0 ==> j < nested_comment_end(b, j, depth) <= b.len(),
    decreases b.len() - j,
{
    if j < b.len() {
        if b.len() - j > 1 && b[j] == 0x2F && b[j + 1] == 0x2A {
            lemma_nested_comment_end(b, j + 2, depth + 1);
        } else if b.len() - j > 1 && b[j] == 0x2A && b[j + 1] == 0x2F {
            if depth > 1 {
                lemma_nested_comment_end(b, j + 2, depth - 1);
            }
        } else {
            lemma_nested_comment_end(b, j + 1, depth);
        }
    }
}

pub proof fn lemma_block_end(b: Seq<u8>, j: int)
    requires
        0 <= j,
    ensures
        block_end(b, j) >= 0 ==> j < block_end(b, j) <= b.len(),
    decreases b.len() - j,
{
    if b.len() - j > 1 && !(b[j] == 0x2A && b[j + 1] == 0x2F) {
        lemma_block_end(b, j + 1);
    }
}

pub proof fn lemma_hashes_from(b: Seq<u8>, k: int)
    requires
        0 <= k,
    ensures
        0 <= hashes_from(b, k),
        k + hashes_from(b, k) <= b.len() || hashes_from(b, k) == 0,
    decreases b.len() - k,
{
    if k < b.len() && b[k] == 0x23 {
        lemma_hashes_from(b, k + 1);
    }
}

pub proof fn lemma_raw_open(b: Seq<u8>, i: int)
    requires
        0 <= i < b.len(),
    ensures
        raw_open(b, i) >= 0 ==> i < raw_hash_start(b, i) <= raw_open(b, i) < b.len(),
{
    lemma_hashes_from(b, raw_hash_start(b, i));
}

pub proof fn lemma_raw_close(b: Seq<u8>, j: int, h: int)
    requires
        0 <= j,
        0 <= h,
    ensures
        raw_close(b, j, h) >= 0 ==> j < raw_close(b, j, h) <= b.len(),
    decreases b.len() - j,
{
    if j < b.len() && !closes_raw(b, j, h) {
        lemma_raw_close(b, j + 1, h);
    }
}

pub proof fn lemma_str_close(b: Seq<u8>, j: int, q: u8)
    requires
        0 <= j,
    ensures
        str_close(b, j, q) >= 0 ==> j < str_close(b, j, q) <= b.len(),
        str_close(b, j, q) >= -2,
    decreases b.len() - j,
{
    if j < b.len() {
        if b[j] == 0x5C {
            if j + 1 < b.len() {
                lemma_str_close(b, j + 2, q);
            }
        } else if b[j] != q {
            lemma_str_close(b, j + 1, q);
        }
    }
}

/// Compaction of generated Rust from byte `i`, with a space owed (`pending`)
/// and whether anything has been written yet (`started`). Block comments nest;
/// raw strings (`r"..."`, `r#"..."#`, `br"..."`) and strings are copied whole.
/// A string that runs out is an error.
pub open spec fn rust_from(b: Seq<u8>, i: int, pending: bool, started: bool) -> MinifyOutcome
    decreases b.len() - i,
{
    if i < 0 || i >= b.len() {
        Ok(Seq::empty())
    } else if is_ws_byte(b[i]) {
        rust_from(b, i + 1, true, started)
    } else if b.len() - i > 1 && b[i] == 0x2F && b[i + 1] == 0x2F {
        proof { lemma_newline_from(b, i + 2); }
        rust_from(b, newline_from(b, i + 2), true, started)
    } else if b.len() - i > 1 && b[i] == 0x2F && b[i + 1] == 0x2A {
        proof { lemma_nested_comment_end(b, i + 2, 1); }
        let e = nested_comment_end(b, i + 2, 1);
        if e < 0 {
            Err((b.len() - 1, "unterminated block comment"))
        } else {
            rust_from(b, e, true, started)
        }
    } else if raw_open(b, i) >= 0 {
        let q = raw_open(b, i);
        proof {
            lemma_raw_open(b, i);
            lemma_raw_close(b, q + 1, q - raw_hash_start(b, i));
        }
        let e = raw_close(b, q + 1, q - raw_hash_start(b, i));
        if e < 0 {
            Err((b.len() - 1, "unterminated raw string"))
        } else {
            then_prepend(gap(pending && started) + b.subrange(i, e), rust_from(b, e, false, true))
        }
    } else if b[i] == 0x22 {
        proof { lemma_str_close(b, i + 1, 0x22); }
        let e = str_close(b, i + 1, 0x22);
        if e == -1 {
            Err((b.len() - 1, "unterminated escape"))
        } else if e < 0 {
            Err((b.len() - 1, "unterminated string"))
        } else {
            then_prepend(gap(pending && started) + b.subrange(i, e), rust_from(b, e, false, true))
        }
    } else {
        then_prepend(gap(pending && started).push(b[i]), rust_from(b, i + 1, false, true))
    }
}

/// The error offset of a block comment opened at `i` that is not closed.
pub open spec fn js_block_error_offset(b: Seq<u8>, i: int) -> int {
    if i + 3 <= b.len() { b.len() - 2 } else { b.len() - 1 }
}

/// Compaction of generated JavaScript from byte `i` (see `rust_from`): block
/// comments do not nest; `"`, `'` and template literals are copied whole.
pub open spec fn js_from(b: Seq<u8>, i: int, pending: bool, started: bool) -> MinifyOutcome
    decreases b.len() - i,
{
    if i < 0 || i >= b.len() {
        Ok(Seq::empty())
    } else if is_ws_byte(b[i]) {
        js_from(b, i + 1, true, started)
    } else if b.len() - i > 1 && b[i] == 0x2F && b[i + 1] == 0x2F {
        proof { lemma_newline_from(b, i + 2); }
        js_from(b, newline_from(b, i + 2), true, started)
    } else if b.len() - i > 1 && b[i] == 0x2F && b[i + 1] == 0x2A {
        proof { lemma_block_end(b, i + 2); }
        let e = block_end(b, i + 2);
        if e < 0 {
            Err((js_block_error_offset(b, i), "unterminated block comment"))
        } else {
            js_from(b, e, true, started)
        }
    } else if b[i] == 0x22 || b[i] == 0x27 || b[i] == 0x60 {
        proof { lemma_str_close(b, i + 1, b[i]); }
        let e = str_close(b, i + 1, b[i]);
        let template = b[i] == 0x60;
        if e == -1 {
            Err((b.len() - 1, if template { "unterminated template escape" } else { "unterminated escape" }))
        } else if e < 0 {
            Err((b.len() - 1, if template { "unterminated template literal" } else { "unterminated string" }))
        } else {
            then_prepend(gap(pending && started) + b.subrange(i, e), js_from(b, e, false, true))
        }
    } else {
        then_prepend(gap(pending && started).push(b[i]), js_from(b, i + 1, false, true))
    }
}

/// `e` reports the error `kind` at byte `off` of `b`.
pub open spec fn error_is(e: MinifyError, b: Seq<u8>, off: int, kind: &'static str) -> bool {
    &&& e.kind == kind
    &&& e.offset == off
    &&& e.line == line_col(b, off).0
    &&& e.col == line_col(b, off).1
}

/// `r` is what a compactor returns for `b` when its outcome is `res`: the
/// output decoded as UTF-8 and trimmed, or the error.
pub open spec fn minified(b: Seq<u8>, res: MinifyOutcome, r: Result<String, MinifyError>) -> bool {
    match res {
        Err(x) => r matches Err(e) && error_is(e, b, x.0, x.1),
        Ok(out) => if vstd::utf8::valid_utf8(out) {
            r matches Ok(s) && s@ == trimmed(vstd::utf8::decode_utf8(out), 0, vstd::utf8::decode_utf8(out).len() as int)
        } else {
            r matches Err(e) && error_is(e, b, 0, "invalid utf8 after minify")
        },
    }
}

pub proof fn lemma_then_prepend(a: Seq<u8>, x: Seq<u8>, r: MinifyOutcome)
    ensures
        then_prepend(a, then_prepend(x, r)) == then_prepend(a + x, r),
{
    match r {
        Ok(y) => { assert(a + (x + y) =~= (a + x) + y); },
        Err(_) => {},
    }
}

fn minify_err(b: &[u8], off: usize, kind: &'static str) -> (e: MinifyError)
    requires
        off < b@.len() || off == 0,
    ensures
        error_is(e, b@, off as int, kind),
{
    let (line, col) = if off < b.len() { line_col_at(b, off) } else { (1, 1) };
    MinifyError { kind, offset: off, line, col }
}

/// Writes the owed space (when something was written before).
fn emit_pending_space(out: &mut Vec<u8>, pending: &mut bool)
    ensures
        final(out)@ == old(out)@ + gap(*old(pending) && old(out)@.len() > 0),
        !*final(pending),
{
    if *pending && out.len() > 0 {
        out.push(0x20);
    }
    *pending = false;
    proof { assert(final(out)@ =~= old(out)@ + gap(*old(pending) && old(out)@.len() > 0)); }
}

/// Appends `b[from..to]`.
fn copy_range(out: &mut Vec<u8>, b: &[u8], from: usize, to: usize)
    requires
        from <= to <= b@.len(),
    ensures
        final(out)@ == old(out)@ + b@.subrange(from as int, to as int),
{
    let mut k = from;
    while k < to
        invariant
            from <= k <= to <= b@.len(),
            out@ == old(out)@ + b@.subrange(from as int, k as int),
        decreases to - k,
    {
        out.push(b[k]);
        k += 1;
        proof { assert(out@ =~= old(out)@ + b@.subrange(from as int, k as int)); }
    }
}

fn newline_at_or_after(b: &[u8], j: usize) -> (r: usize)
    requires
        j <= b@.len(),
    ensures
        r == newline_from(b@, j as int),
        j <= r <= b@.len(),
{
    let mut i = j;
    while i < b.len() && b[i] != 0x0A
        invariant
            j <= i <= b@.len(),
            newline_from(b@, i as int) == newline_from(b@, j as int),
        decreases b@.len() - i,
    {
        i += 1;
    }
    i
}

fn nested_end(b: &[u8], j: usize) -> (r: Option<usize>)
    requires
        j <= b@.len(),
    ensures
        r matches Some(e) ==> e == nested_comment_end(b@, j as int, 1),
        r is None ==> nested_comment_end(b@, j as int, 1) < 0,
{
    let n = b.len();
    let mut i = j;
    let mut depth: usize = 1;
    while i < n
        invariant
            n == b@.len(),
            j <= i <= n,
            1 <= depth <= i + 1,
            nested_comment_end(b@, i as int, depth as int) == nested_comment_end(b@, j as int, 1),
        decreases n - i,
    {
        if n - i > 1 && b[i] == 0x2F && b[i + 1] == 0x2A {
            depth += 1;
            i += 2;
            continue;
        }
        if n - i > 1 && b[i] == 0x2A && b[i + 1] == 0x2F {
            if depth <= 1 {
                return Some(i + 2);
            }
            depth -= 1;
            i += 2;
            continue;
        }
        i += 1;
    }
    None
}

fn plain_block_end(b: &[u8], j: usize) -> (r: Option<usize>)
    requires
        j <= b@.len(),
    ensures
        r matches Some(e) ==> e == block_end(b@, j as int),
        r is None ==> block_end(b@, j as int) < 0,
{
    let n = b.len();
    let mut i = j;
    while n - i > 1
        invariant
            n == b@.len(),
            j <= i <= n,
            block_end(b@, i as int) == block_end(b@, j as int),
        decreases n - i,
    {
        if b[i] == 0x2A && b[i + 1] == 0x2F {
            return Some(i + 2);
        }
        i += 1;
    }
    None
}

/// The opening quote of a raw string at `i`, and its number of hashes.
fn raw_open_at(b: &[u8], i: usize) -> (r: Option<(usize, usize)>)
    requires
        i < b@.len(),
    ensures
        r matches Some((q, h)) ==> q == raw_open(b@, i as int) && h == q - raw_hash_start(b@, i as int),
        r is None ==> raw_open(b@, i as int) < 0,
{
    let n = b.len();
    let c = b[i];
    if !(c == 0x72 || (c == 0x62 && n - i > 1 && b[i + 1] == 0x72)) {
        return None;
    }
    let k0 = if c == 0x62 { i + 2 } else { i + 1 };
    let mut k = k0;
    while k < n && b[k] == 0x23
        invariant
            n == b@.len(),
            i < k0 <= k <= n,
            k0 == raw_hash_start(b@, i as int),
            hashes_from(b@, k0 as int) == (k - k0) + hashes_from(b@, k as int),
        decreases n - k,
    {
        k += 1;
    }
    if k < n && b[k] == 0x22 {
        Some((k, k - k0))
    } else {
        None
    }
}

/// The end of a raw string body from `j` closed by a quote and `h` hashes.
fn raw_close_at(b: &[u8], j: usize, h: usize) -> (r: Option<usize>)
    requires
        j <= b@.len(),
    ensures
        r matches Some(e) ==> e == raw_close(b@, j as int, h as int),
        r is None ==> raw_close(b@, j as int, h as int) < 0,
{
    let n = b.len();
    let mut i = j;
    while i < n
        invariant
            n == b@.len(),
            j <= i <= n,
            raw_close(b@, i as int, h as int) == raw_close(b@, j as int, h as int),
        decreases n - i,
    {
        if b[i] == 0x22 && n - i - 1 >= h {
            let mut t: usize = 0;
            while t < h && b[i + 1 + t] == 0x23
                invariant
                    n == b@.len(),
                    i < n,
                    i + 1 + h <= n,
                    t <= h,
                    forall|u: int| i + 1 <= u < i + 1 + t ==> #[trigger] b@[u] == 0x23,
                decreases h - t,
            {
                t += 1;
            }
            if t == h {
                return Some(i + 1 + h);
            }
        }
        i += 1;
    }
    None
}

/// The end of a quoted literal whose contents start at `j`, closed by `q`
/// (`str_close`): `Ok` with the end, `Err(true)` for a lone backslash at the
/// end, `Err(false)` when it runs out.
fn str_close_at(b: &[u8], j: usize, q: u8) -> (r: Result<usize, bool>)
    requires
        j <= b@.len(),
    ensures
        r matches Ok(e) ==> e == str_close(b@, j as int, q),
        r == Err::<usize, bool>(true) ==> str_close(b@, j as int, q) == -1,
        r == Err::<usize, bool>(false) ==> str_close(b@, j as int, q) == -2,
{
    let n = b.len();
    let mut i = j;
    while i < n
        invariant
            n == b@.len(),
            j <= i <= n,
            str_close(b@, i as int, q) == str_close(b@, j as int, q),
        decreases n - i,
    {
        if b[i] == 0x5C {
            if n - i > 1 {
                i += 2;
                continue;
            }
            return Err(true);
        }
        if b[i] == q {
            return Ok(i + 1);
        }
        i += 1;
    }
    Err(false)
}

/// The output decoded and trimmed, or the UTF-8 error.
fn finish(b: &[u8], out: Vec<u8>) -> (r: Result<String, MinifyError>)
    ensures
        minified(b@, Ok(out@), r),
{
    match str_from_utf8(out.as_slice()) {
        Some(s) => Ok(trim_str(s.as_str())),
        None => Err(minify_err(b, 0, "invalid utf8 after minify")),
    }
}

/// Compacts generated Rust (`rust_from`): comments removed (block comments
/// nest), white space collapsed, string and raw string literals kept.
pub fn minify_rust_generated(input: &str) -> (r: Result<String, MinifyError>)
    ensures
        minified(input.spec_bytes(), rust_from(input.spec_bytes(), 0, false, false), r),
{
    let b = input.as_bytes();
    let n = b.len();
    let mut out: Vec<u8> = Vec::new();
    let mut i: usize = 0;
    let mut pending = false;
    while i < n
        invariant
            n == b@.len(),
            b@ == input.spec_bytes(),
            i <= n,
            rust_from(b@, 0, false, false) == then_prepend(out@, rust_from(b@, i as int, pending, out@.len() > 0)),
        decreases n - i,
    {
        let c = b[i];
        let ghost before = out@;
        let ghost p0 = pending;
        if c == 0x20 || c == 0x09 || c == 0x0A || c == 0x0D {
            pending = true;
            i += 1;
            continue;
        }
        if c == 0x2F && n - i > 1 && b[i + 1] == 0x2F {
            i = newline_at_or_after(b, i + 2);
            pending = true;
            continue;
        }
        if c == 0x2F && n - i > 1 && b[i + 1] == 0x2A {
            proof { lemma_nested_comment_end(b@, i + 2, 1); }
            match nested_end(b, i + 2) {
                Some(e) => {
                    i = e;
                    pending = true;
                    continue;
                },
                None => {
                    return Err(minify_err(b, n - 1, "unterminated block comment"));
                },
            }
        }
        match raw_open_at(b, i) {
            Some((q, h)) => {
                proof { lemma_raw_open(b@, i as int); }
                match raw_close_at(b, q + 1, h) {
                    Some(e) => {
                        proof { lemma_raw_close(b@, q + 1, h as int); }
                        emit_pending_space(&mut out, &mut pending);
                        copy_range(&mut out, b, i, e);
                        proof {
                            lemma_then_prepend(before, gap(p0 && before.len() > 0) + b@.subrange(i as int, e as int),
                                rust_from(b@, e as int, false, true));
                            assert(out@ =~= before + (gap(p0 && before.len() > 0) + b@.subrange(i as int, e as int)));
                        }
                        i = e;
                        continue;
                    },
                    None => {
                        return Err(minify_err(b, n - 1, "unterminated raw string"));
                    },
                }
            },
            None => {},
        }
        if c == 0x22 {
            let sc = str_close_at(b, i + 1, 0x22);
            proof { lemma_str_close(b@, i + 1, 0x22); }
            match sc {
                Err(true) => {
                    return Err(minify_err(b, n - 1, "unterminated escape"));
                },
                Err(false) => {
                    return Err(minify_err(b, n - 1, "unterminated string"));
                },
                Ok(e) => {
                    emit_pending_space(&mut out, &mut pending);
                    copy_range(&mut out, b, i, e);
                    proof {
                        lemma_then_prepend(before, gap(p0 && before.len() > 0) + b@.subrange(i as int, e as int),
                            rust_from(b@, e as int, false, true));
                        assert(out@ =~= before + (gap(p0 && before.len() > 0) + b@.subrange(i as int, e as int)));
                    }
                    i = e;
                    continue;
                },
            }
        }
        emit_pending_space(&mut out, &mut pending);
        out.push(c);
        proof {
            lemma_then_prepend(before, gap(p0 && before.len() > 0).push(c), rust_from(b@, i + 1, false, true));
            assert(out@ =~= before + gap(p0 && before.len() > 0).push(c));
        }
        i += 1;
    }
    proof { assert(out@ + Seq::<u8>::empty() =~= out@); }
    finish(b, out)
}


/// Compacts a generated route module: the same as `minify_rust_generated`.
pub fn minify_route_mod_generated(input: &str) -> (r: Result<String, MinifyError>)
    ensures
        minified(input.spec_bytes(), rust_from(input.spec_bytes(), 0, false, false), r),
{
    minify_rust_generated(input)
}

/// Compacts generated JavaScript (`js_from`): comments removed, white space
/// collapsed, string and template literals kept.
pub fn minify_js_generated(input: &str) -> (r: Result<String, MinifyError>)
    ensures
        minified(input.spec_bytes(), js_from(input.spec_bytes(), 0, false, false), r),
{
    let b = input.as_bytes();
    let n = b.len();
    let mut out: Vec<u8> = Vec::new();
    let mut i: usize = 0;
    let mut pending = false;
    while i < n
        invariant
            n == b@.len(),
            b@ == input.spec_bytes(),
            i <= n,
            js_from(b@, 0, false, false) == then_prepend(out@, js_from(b@, i as int, pending, out@.len() > 0)),
        decreases n - i,
    {
        let c = b[i];
        let ghost before = out@;
        let ghost p0 = pending;
        if c == 0x20 || c == 0x09 || c == 0x0A || c == 0x0D {
            pending = true;
            i += 1;
            continue;
        }
        if c == 0x2F && n - i > 1 && b[i + 1] == 0x2F {
            i = newline_at_or_after(b, i + 2);
            pending = true;
            continue;
        }
        if c == 0x2F && n - i > 1 && b[i + 1] == 0x2A {
            proof { lemma_block_end(b@, i + 2); }
            match plain_block_end(b, i + 2) {
                Some(e) => {
                    i = e;
                    pending = true;
                    continue;
                },
                None => {
                    let off = if n - i >= 3 { n - 2 } else { n - 1 };
                    return Err(minify_err(b, off, "unterminated block comment"));
                },
            }
        }
        if c == 0x22 || c == 0x27 || c == 0x60 {
            let sc = str_close_at(b, i + 1, c);
            proof { lemma_str_close(b@, i + 1, c); }
            match sc {
                Err(true) => {
                    if c == 0x60 {
                        return Err(minify_err(b, n - 1, "unterminated template escape"));
                    }
                    return Err(minify_err(b, n - 1, "unterminated escape"));
                },
                Err(false) => {
                    if c == 0x60 {
                        return Err(minify_err(b, n - 1, "unterminated template literal"));
                    }
                    return Err(minify_err(b, n - 1, "unterminated string"));
                },
                Ok(e) => {
                    emit_pending_space(&mut out, &mut pending);
                    copy_range(&mut out, b, i, e);
                    proof {
                        lemma_then_prepend(before, gap(p0 && before.len() > 0) + b@.subrange(i as int, e as int),
                            js_from(b@, e as int, false, true));
                        assert(out@ =~= before + (gap(p0 && before.len() > 0) + b@.subrange(i as int, e as int)));
                    }
                    i = e;
                    continue;
                },
            }
        }
        emit_pending_space(&mut out, &mut pending);
        out.push(c);
        proof {
            lemma_then_prepend(before, gap(p0 && before.len() > 0).push(c), js_from(b@, i + 1, false, true));
            assert(out@ =~= before + gap(p0 && before.len() > 0).push(c));
        }
        i += 1;
    }
    proof { assert(out@ + Seq::<u8>::empty() =~= out@); }
    finish(b, out)
}

} // verus!
