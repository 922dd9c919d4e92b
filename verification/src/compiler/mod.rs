//! The `.volki` compiler front end: RSX tokenizer, parser and code generator.

use vstd::prelude::*;
use vstd::string::StringSliceAdditionalSpecFns;
use std::path::PathBuf;
use crate::text::str_eq;

pub mod tokenizer;
pub mod parser;
pub mod codegen;
pub mod scanner;
pub mod boundary;
pub mod minify;
pub mod semantic;
pub mod routes;
pub mod wasm_rsx_codegen;
pub mod wasm_codegen;
pub mod wasm_module;
pub mod wasm_build;
pub mod pipeline;
pub mod use_paths;

verus! {

/// A file path, carried through the compiler as it was given.
#[verifier::external_type_specification]
#[verifier::external_body]
pub struct ExPathBuf(PathBuf);

/// `PathBuf::clone`: an equal path.
#[verifier::external_body]
pub fn clone_path(p: &PathBuf) -> (r: PathBuf)
    ensures
        r == *p,
{
    p.clone()
}

/// Error during compilation.
#[derive(Debug)]
pub struct CompileError {
    pub file: PathBuf,
    pub line: usize,
    pub col: usize,
    pub message: String,
}

/// A warning produced during compilation.
#[derive(Debug)]
pub struct CompileWarning {
    pub file: PathBuf,
    pub line: usize,
    pub col: usize,
    pub message: String,
}

/// Output of client-side compilation: the WASM module source and the JS glue.
#[derive(Debug)]
pub struct ClientOutput {
    pub wasm_rs: String,
    pub glue_js: String,
}

/// Result of compiling one `.volki` file.
#[derive(Debug)]
pub struct CompileResult {
    pub source_path: PathBuf,
    pub output_path: PathBuf,
    pub warnings: Vec<CompileWarning>,
    pub client: Option<ClientOutput>,
}

/// Result of compiling one `.volki` source string.
#[derive(Debug)]
pub struct SourceOutput {
    pub server_rs: String,
    pub client: Option<ClientOutput>,
    pub warnings: Vec<CompileWarning>,
}

/// An ASCII uppercase byte.
pub open spec fn is_upper_byte(b: u8) -> bool {
    0x41 <= b <= 0x5A
}

/// The snake_case form of PascalCase bytes: each capital becomes `_` (except at the
/// start) and its lower-case letter; every other byte is kept as the character of
/// that value.
pub open spec fn snake_of(b: Seq<u8>) -> Seq<char>
    decreases b.len(),
{
    if b.len() == 0 {
        Seq::empty()
    } else {
        let c = b.last();
        let prev = snake_of(b.drop_last());
        if is_upper_byte(c) {
            (if b.len() > 1 { prev.push('_') } else { prev }).push((c + 32) as char)
        } else {
            prev.push(c as char)
        }
    }
}

/// Convert a PascalCase name to snake_case, e.g. `SidebarContent` to `sidebar_content`.
pub fn pascal_to_snake(name: &str) -> (r: String)
    ensures
        r@ == snake_of(name.spec_bytes()),
{
    let b = name.as_bytes();
    let mut out = String::new();
    let mut i: usize = 0;
    while i < b.len()
        invariant
            b@ == name.spec_bytes(),
            i <= b@.len(),
            out@ == snake_of(b@.subrange(0, i as int)),
        decreases b@.len() - i,
    {
        let c = b[i];
        proof {
            let w = b@.subrange(0, i + 1);
            assert(w.drop_last() =~= b@.subrange(0, i as int));
            assert(w.last() == c);
        }
        if 0x41 <= c && c <= 0x5A {
            if i > 0 {
                out.push('_');
            }
            out.push((c + 32) as char);
        } else {
            out.push(c as char);
        }
        i += 1;
    }
    proof { assert(b@.subrange(0, b@.len() as int) =~= b@); }
    out
}

/// A custom component tag: starts with an ASCII capital and is not `Style`,
/// `Head` or `Stylesheet`.
pub open spec fn component_tag(t: Seq<char>) -> bool {
    &&& vstd::utf8::encode_utf8(t).len() > 0
    &&& is_upper_byte(vstd::utf8::encode_utf8(t)[0])
    &&& t != "Style"@ && t != "Head"@ && t != "Stylesheet"@
}

/// Whether `tag` names a custom component.
pub fn is_component_tag(tag: &str) -> (r: bool)
    ensures
        r == component_tag(tag@),
{
    let b = tag.as_bytes();
    if b.len() == 0 {
        return false;
    }
    let first = b[0];
    0x41 <= first && first <= 0x5A && !str_eq(tag, "Style") && !str_eq(tag, "Head") && !str_eq(tag, "Stylesheet")
}

/// The file extensions of static assets copied to the public directory.
pub open spec fn static_asset_ext(e: Seq<char>) -> bool {
    e == "css"@ || e == "svg"@ || e == "png"@ || e == "jpg"@ || e == "jpeg"@ || e == "gif"@
        || e == "webp"@ || e == "avif"@ || e == "ico"@ || e == "woff"@ || e == "woff2"@
        || e == "ttf"@ || e == "otf"@
}

/// Whether a file extension is a static asset.
pub fn is_static_asset(ext: &str) -> (r: bool)
    ensures
        r == static_asset_ext(ext@),
{
    str_eq(ext, "css") || str_eq(ext, "svg") || str_eq(ext, "png") || str_eq(ext, "jpg")
        || str_eq(ext, "jpeg") || str_eq(ext, "gif") || str_eq(ext, "webp") || str_eq(ext, "avif")
        || str_eq(ext, "ico") || str_eq(ext, "woff") || str_eq(ext, "woff2") || str_eq(ext, "ttf")
        || str_eq(ext, "otf")
}

/// 1-based line and column of the byte offset `end`.
pub open spec fn line_col(b: Seq<u8>, end: int) -> (int, int)
    decreases end,
{
    if end <= 0 {
        (1, 1)
    } else {
        let lc = line_col(b, end - 1);
        if b[end - 1] == 0x0A { (lc.0 + 1, 1) } else { (lc.0, lc.1 + 1) }
    }
}

/// 1-based line and column of a byte offset.
pub(crate) fn line_col_at(b: &[u8], off: usize) -> (r: (usize, usize))
    requires
        off < b@.len(),
    ensures
        r.0 == line_col(b@, off as int).0,
        r.1 == line_col(b@, off as int).1,
{
    let mut line: usize = 1;
    let mut col: usize = 1;
    let mut i: usize = 0;
    while i < off
        invariant
            off < b@.len(),
            i <= off,
            line == line_col(b@, i as int).0,
            col == line_col(b@, i as int).1,
            line + col <= i + 2,
            1 <= line,
            1 <= col,
        decreases off - i,
    {
        if b[i] == 0x0A {
            line += 1;
            col = 1;
        } else {
            col += 1;
        }
        i += 1;
    }
    (line, col)
}

/// The first byte position at or after `i` where the bytes `p` occur in `b`, or
/// -1.
pub open spec fn bytes_find_from(b: Seq<u8>, p: Seq<u8>, i: int) -> int
    decreases b.len() + 1 - i,
{
    if i < 0 || i + p.len() > b.len() {
        -1
    } else if b.subrange(i, i + p.len()) == p {
        i
    } else {
        bytes_find_from(b, p, i + 1)
    }
}

/// The 1-based line and column where `class_name` first occurs in `source`.
pub fn find_class_occurrence(source: &str, class_name: &str) -> (r: Option<(usize, usize)>)
    ensures
        match r {
            None => bytes_find_from(source.spec_bytes(), class_name.spec_bytes(), 0) < 0,
            Some((line, col)) => {
                let at = bytes_find_from(source.spec_bytes(), class_name.spec_bytes(), 0);
                &&& at >= 0
                &&& line == line_col(source.spec_bytes(), at).0
                &&& col == line_col(source.spec_bytes(), at).1
            },
        },
{
    let b = source.as_bytes();
    let p = class_name.as_bytes();
    let n = b.len();
    let m = p.len();
    let mut i: usize = 0;
    while i <= n && n - i >= m
        invariant
            b@ == source.spec_bytes(),
            p@ == class_name.spec_bytes(),
            n == b@.len(),
            m == p@.len(),
            bytes_find_from(b@, p@, i as int) == bytes_find_from(b@, p@, 0),
        decreases n + 1 - i,
    {
        let mut k: usize = 0;
        while k < m && b[i + k] == p[k]
            invariant
                i + m <= n,
                n == b@.len(),
                m == p@.len(),
                k <= m,
                forall|j: int| 0 <= j < k ==> b@[i + j] == p@[j],
            decreases m - k,
        {
            k += 1;
        }
        if k == m {
            proof {
                assert(b@.subrange(i as int, i + m) =~= p@);
                if m == 0 {
                    assert(b@.subrange(0, 0) =~= p@);
                }
            }
            let (line, col) = if i < n { line_col_at(b, i) } else { (1, 1) };
            return Some((line, col));
        }
        proof { assert(b@.subrange(i as int, i + m)[k as int] != p@[k as int]); }
        i += 1;
    }
    None
}

/// Walking back from `i` to the `fn ` (or `pub fn `) that starts a declaration:
/// its position, or 0.
pub open spec fn fn_start_from(b: Seq<u8>, i: int) -> int
    decreases i,
{
    if i <= 0 {
        0
    } else if i >= 3 && b[i - 3] == 0x66 && b[i - 2] == 0x6E && b[i - 1] == 0x20 {
        if i - 3 >= 4 && b[i - 7] == 0x70 && b[i - 6] == 0x75 && b[i - 5] == 0x62 && b[i - 4] == 0x20 {
            i - 7
        } else {
            i - 3
        }
    } else {
        fn_start_from(b, i - 1)
    }
}

/// The start of the `fn` or `pub fn` declaration before `pos` (`fn_start_from`).
pub fn find_fn_start(source: &str, pos: usize) -> (r: usize)
    requires
        pos <= source.spec_bytes().len(),
    ensures
        r as int == fn_start_from(source.spec_bytes(), pos as int),
        r <= pos,
{
    let b = source.as_bytes();
    let mut i = pos;
    while i > 0
        invariant
            b@ == source.spec_bytes(),
            i <= pos <= b@.len(),
            fn_start_from(b@, i as int) == fn_start_from(b@, pos as int),
        decreases i,
    {
        if i >= 3 && b[i - 3] == 0x66 && b[i - 2] == 0x6E && b[i - 1] == 0x20 {
            let fn_start = i - 3;
            if fn_start >= 4 && b[fn_start - 4] == 0x70 && b[fn_start - 3] == 0x75 && b[fn_start - 2] == 0x62
                && b[fn_start - 1] == 0x20 {
                return fn_start - 4;
            }
            return fn_start;
        }
        i -= 1;
    }
    0
}


} // verus!
