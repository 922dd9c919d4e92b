//! Server/client boundary validation: APIs must be used in the right kind of
//! function (server, client or component) and not at the top level.

use vstd::prelude::*;
use vstd::string::StringSliceAdditionalSpecFns;
use super::scanner::{
    RsxFunction, RsxReturnType, function_ok, skip_string, skip_line_comment, skip_block_comment,
    string_end, line_comment_end, block_comment_end, lemma_string_end, lemma_line_comment_end,
    lemma_block_comment_end,
};
use crate::text::push_str;
use super::{line_col, line_col_at};

verus! {

/// A boundary violation found during validation.
#[derive(Debug)]
pub struct BoundaryViolation {
    pub line: usize,
    pub col: usize,
    pub pattern: String,
    pub fn_type: String,
    pub fn_name: Option<String>,
    pub message: String,
    pub help: String,
}

/// A forbidden API: the text to look for and the name to report.
#[derive(Clone, Copy)]
pub struct ApiPattern {
    pub text: &'static str,
    pub display: &'static str,
}

/// Which rule a violation breaks.
#[derive(Clone, Copy, Debug, PartialEq, Eq, Structural)]
pub enum ViolationKind {
    ClientInServer,
    ServerInClient,
    ComponentOnlyInClient,
    TopLevelForbidden,
}

fn pat(text: &'static str, display: &'static str) -> (p: ApiPattern)
    ensures
        p.text == text,
        p.display == display,
{
    ApiPattern { text, display }
}

/// Client/browser-only APIs, forbidden in `-> Html` and `-> Fragment` and at the top level.
pub open spec fn client_only_list() -> Seq<ApiPattern> {
    seq![
        ApiPattern { text: "dom::query(", display: "dom::query" },
        ApiPattern { text: "dom::log(", display: "dom::log" },
        ApiPattern { text: ".set_text(", display: ".set_text" },
        ApiPattern { text: ".get_value(", display: ".get_value" },
        ApiPattern { text: ".set_attr(", display: ".set_attr" },
        ApiPattern { text: ".add_class(", display: ".add_class" },
        ApiPattern { text: ".remove_class(", display: ".remove_class" },
        ApiPattern { text: "use_state(", display: "use_state" },
        ApiPattern { text: "state::get_i32(", display: "state::get_i32" },
        ApiPattern { text: "state::set_i32(", display: "state::set_i32" },
        ApiPattern { text: "state::get_f32(", display: "state::get_f32" },
        ApiPattern { text: "state::set_f32(", display: "state::set_f32" },
        ApiPattern { text: "state::get_str(", display: "state::get_str" },
        ApiPattern { text: "state::set_str(", display: "state::set_str" },
        ApiPattern { text: "state::fmt_i32(", display: "state::fmt_i32" },
        ApiPattern { text: "state::fmt_f32(", display: "state::fmt_f32" },
        ApiPattern { text: "dom::create(", display: "dom::create" },
        ApiPattern { text: "dom::append(", display: "dom::append" },
        ApiPattern { text: "dom::remove(", display: "dom::remove" },
        ApiPattern { text: "dom::set_html(", display: "dom::set_html" },
        ApiPattern { text: ".toggle_class(", display: ".toggle_class" },
        ApiPattern { text: ".get_attr(", display: ".get_attr" },
        ApiPattern { text: ".remove_attr(", display: ".remove_attr" },
        ApiPattern { text: "dom::query_all_count(", display: "dom::query_all_count" },
        ApiPattern { text: "dom::query_all_get(", display: "dom::query_all_get" },
        ApiPattern { text: "use_ref(", display: "use_ref" },
        ApiPattern { text: "use_ref_el(", display: "use_ref_el" },
        ApiPattern { text: "ref::get_i32(", display: "ref::get_i32" },
        ApiPattern { text: "ref::set_i32(", display: "ref::set_i32" },
        ApiPattern { text: "ref::get_f32(", display: "ref::get_f32" },
        ApiPattern { text: "ref::set_f32(", display: "ref::set_f32" },
        ApiPattern { text: "use_effect(", display: "use_effect" },
        ApiPattern { text: "use_memo_i32(", display: "use_memo_i32" },
        ApiPattern { text: "use_memo_f32(", display: "use_memo_f32" },
    ]
}

/// Client/browser-only APIs, forbidden in `-> Html` and `-> Fragment` and at the top level.
pub fn client_only() -> (v: Vec<ApiPattern>)
    ensures
        v@ == client_only_list(),
{
    let mut v = Vec::new();
    v.push(pat("dom::query(", "dom::query"));
    v.push(pat("dom::log(", "dom::log"));
    v.push(pat(".set_text(", ".set_text"));
    v.push(pat(".get_value(", ".get_value"));
    v.push(pat(".set_attr(", ".set_attr"));
    v.push(pat(".add_class(", ".add_class"));
    v.push(pat(".remove_class(", ".remove_class"));
    v.push(pat("use_state(", "use_state"));
    v.push(pat("state::get_i32(", "state::get_i32"));
    v.push(pat("state::set_i32(", "state::set_i32"));
    v.push(pat("state::get_f32(", "state::get_f32"));
    v.push(pat("state::set_f32(", "state::set_f32"));
    v.push(pat("state::get_str(", "state::get_str"));
    v.push(pat("state::set_str(", "state::set_str"));
    v.push(pat("state::fmt_i32(", "state::fmt_i32"));
    v.push(pat("state::fmt_f32(", "state::fmt_f32"));
    v.push(pat("dom::create(", "dom::create"));
    v.push(pat("dom::append(", "dom::append"));
    v.push(pat("dom::remove(", "dom::remove"));
    v.push(pat("dom::set_html(", "dom::set_html"));
    v.push(pat(".toggle_class(", ".toggle_class"));
    v.push(pat(".get_attr(", ".get_attr"));
    v.push(pat(".remove_attr(", ".remove_attr"));
    v.push(pat("dom::query_all_count(", "dom::query_all_count"));
    v.push(pat("dom::query_all_get(", "dom::query_all_get"));
    v.push(pat("use_ref(", "use_ref"));
    v.push(pat("use_ref_el(", "use_ref_el"));
    v.push(pat("ref::get_i32(", "ref::get_i32"));
    v.push(pat("ref::set_i32(", "ref::set_i32"));
    v.push(pat("ref::get_f32(", "ref::get_f32"));
    v.push(pat("ref::set_f32(", "ref::set_f32"));
    v.push(pat("use_effect(", "use_effect"));
    v.push(pat("use_memo_i32(", "use_memo_i32"));
    v.push(pat("use_memo_f32(", "use_memo_f32"));
    proof { assert(v@ =~= client_only_list()); }
    v
}

/// Server-only APIs, forbidden in `-> Client` and `-> Component`.
pub open spec fn server_only_list() -> Seq<ApiPattern> {
    seq![
        ApiPattern { text: "Response::", display: "Response::" },
        ApiPattern { text: "HtmlDocument::", display: "HtmlDocument::" },
        ApiPattern { text: "Metadata::new", display: "Metadata::new" },
        ApiPattern { text: "StatusCode::", display: "StatusCode::" },
        ApiPattern { text: "Headers::", display: "Headers::" },
    ]
}

/// Server-only APIs, forbidden in `-> Client` and `-> Component`.
pub fn server_only() -> (v: Vec<ApiPattern>)
    ensures
        v@ == server_only_list(),
{
    let mut v = Vec::new();
    v.push(pat("Response::", "Response::"));
    v.push(pat("HtmlDocument::", "HtmlDocument::"));
    v.push(pat("Metadata::new", "Metadata::new"));
    v.push(pat("StatusCode::", "StatusCode::"));
    v.push(pat("Headers::", "Headers::"));
    proof { assert(v@ =~= server_only_list()); }
    v
}

/// Component-only APIs, forbidden in `-> Client`.
pub open spec fn component_only_list() -> Seq<ApiPattern> {
    seq![
        ApiPattern { text: "use_state(", display: "use_state" },
        ApiPattern { text: "use_ref(", display: "use_ref" },
        ApiPattern { text: "use_ref_el(", display: "use_ref_el" },
        ApiPattern { text: "use_effect(", display: "use_effect" },
        ApiPattern { text: "use_memo_i32(", display: "use_memo_i32" },
        ApiPattern { text: "use_memo_f32(", display: "use_memo_f32" },
    ]
}

/// Component-only APIs, forbidden in `-> Client`.
pub fn component_only() -> (v: Vec<ApiPattern>)
    ensures
        v@ == component_only_list(),
{
    let mut v = Vec::new();
    v.push(pat("use_state(", "use_state"));
    v.push(pat("use_ref(", "use_ref"));
    v.push(pat("use_ref_el(", "use_ref_el"));
    v.push(pat("use_effect(", "use_effect"));
    v.push(pat("use_memo_i32(", "use_memo_i32"));
    v.push(pat("use_memo_f32(", "use_memo_f32"));
    proof { assert(v@ =~= component_only_list()); }
    v
}


/// The non-empty pattern `p` stands in `b` at `i`.
pub open spec fn match_at(b: Seq<u8>, i: int, p: Seq<u8>) -> bool {
    0 < p.len() && 0 <= i && i + p.len() <= b.len() && b.subrange(i, i + p.len()) == p
}

/// The index of the first of `pats[k..]` whose text stands at `i`, or `pats.len()`.
pub open spec fn first_match(b: Seq<u8>, i: int, pats: Seq<ApiPattern>, k: int) -> int
    decreases pats.len() - k,
{
    if k >= pats.len() {
        pats.len() as int
    } else if match_at(b, i, pats[k].text.spec_bytes()) {
        k
    } else {
        first_match(b, i, pats, k + 1)
    }
}

pub proof fn lemma_first_match(b: Seq<u8>, i: int, pats: Seq<ApiPattern>, k: int)
    requires
        0 <= k <= pats.len(),
    ensures
        k <= first_match(b, i, pats, k) <= pats.len(),
        first_match(b, i, pats, k) < pats.len() ==> match_at(b, i, pats[first_match(b, i, pats, k)].text.spec_bytes()),
    decreases pats.len() - k,
{
    if k < pats.len() && !match_at(b, i, pats[k].text.spec_bytes()) {
        lemma_first_match(b, i, pats, k + 1);
    }
}

/// The patterns found scanning `b` from `i`, as (offset, pattern index): string
/// literals and comments are skipped, the first pattern that matches wins, and
/// scanning goes on after the matched text.
pub open spec fn scan_hits(b: Seq<u8>, i: int, pats: Seq<ApiPattern>) -> Seq<(int, int)>
    decreases b.len() - i,
{
    if i < 0 || i >= b.len() {
        Seq::empty()
    } else if b[i] == 0x22 {
        proof { lemma_string_end(b, i + 1); }
        scan_hits(b, string_end(b, i + 1), pats)
    } else if b.len() - i > 1 && b[i] == 0x2F && b[i + 1] == 0x2F {
        proof { lemma_line_comment_end(b, i + 2); }
        scan_hits(b, line_comment_end(b, i + 2), pats)
    } else if b.len() - i > 1 && b[i] == 0x2F && b[i + 1] == 0x2A {
        proof { lemma_block_comment_end(b, i + 2); }
        scan_hits(b, block_comment_end(b, i + 2), pats)
    } else if first_match(b, i, pats, 0) < pats.len() {
        proof { lemma_first_match(b, i, pats, 0); }
        let k = first_match(b, i, pats, 0);
        seq![(i, k)] + scan_hits(b, i + pats[k].text.spec_bytes().len(), pats)
    } else {
        scan_hits(b, i + 1, pats)
    }
}

/// The text of an optional `String`.
pub open spec fn opt_view(s: Option<String>) -> Option<Seq<char>> {
    match s {
        Some(t) => Some(t@),
        None => None,
    }
}

/// `` `name`` `` after a space, or nothing.
pub open spec fn name_part(name: Option<Seq<char>>) -> Seq<char> {
    match name {
        Some(n) => " `"@ + n + "`"@,
        None => Seq::empty(),
    }
}

/// The message of a violation.
pub open spec fn violation_message(kind: ViolationKind, display: Seq<char>, fn_type: Seq<char>, name: Option<Seq<char>>) -> Seq<char> {
    match kind {
        ViolationKind::ClientInServer => "client-only API `"@ + display + "` used in server function"@ + name_part(name) + " (-> "@ + fn_type + ")"@,
        ViolationKind::ServerInClient => "server-only API `"@ + display + "` used in client function"@ + name_part(name) + " (-> "@ + fn_type + ")"@,
        ViolationKind::ComponentOnlyInClient => "`use_state` can only be used in `-> Component` functions, not `-> Client`"@,
        ViolationKind::TopLevelForbidden => "`"@ + display + "` cannot be used at the top level of a .volki file"@,
    }
}

/// The help text of a violation.
pub open spec fn violation_help(kind: ViolationKind, display: Seq<char>) -> Seq<char> {
    match kind {
        ViolationKind::ClientInServer => "`"@ + display + "` only works in `-> Client` or `-> Component` functions.\n           Move this code to a Client function, or use server-side alternatives."@,
        ViolationKind::ServerInClient => "`"@ + display + "` only works in server functions (-> Html, -> Fragment).\n           Client functions run in the browser and cannot use server APIs."@,
        ViolationKind::ComponentOnlyInClient => "`use_state` initializes component state slots and requires a Component function.\n           Change `-> Client` to `-> Component`, or use `state::get_i32`/`state::set_i32`\n           to access state from a Client function."@,
        ViolationKind::TopLevelForbidden => "`"@ + display + "` is a runtime API that must be called inside a function body.\n           Move it inside a `-> Component` or `-> Client` function."@,
    }
}

/// A finding: source offset, API name, function type, function name and rule.
pub type Finding = (int, Seq<char>, Seq<char>, Option<Seq<char>>, ViolationKind);

/// `v` reports the finding `f` in the source bytes `src`.
pub open spec fn violation_is(v: BoundaryViolation, src: Seq<u8>, f: Finding) -> bool {
    &&& v.line == line_col(src, f.0).0
    &&& v.col == line_col(src, f.0).1
    &&& v.pattern@ == f.1
    &&& v.fn_type@ == f.2
    &&& opt_view(v.fn_name) == f.3
    &&& v.message@ == violation_message(f.4, f.1, f.2, f.3)
    &&& v.help@ == violation_help(f.4, f.1)
}

/// The findings of scanning `src[from..to]` for `pats`.
pub open spec fn body_findings(
    src: Seq<u8>,
    from: int,
    to: int,
    pats: Seq<ApiPattern>,
    fn_type: Seq<char>,
    name: Option<Seq<char>>,
    kind: ViolationKind,
) -> Seq<Finding> {
    scan_hits(src.subrange(from, to), 0, pats).map_values(
        |h: (int, int)| (from + h.0, pats[h.1].display@, fn_type, name, kind),
    )
}

/// Whether the non-empty pattern `p` stands in `b` at `i`.
fn match_here(b: &[u8], i: usize, p: &[u8]) -> (r: bool)
    ensures
        r == match_at(b@, i as int, p@),
{
    let n = b.len();
    if p.len() == 0 || i > n || n - i < p.len() {
        return false;
    }
    let mut k: usize = 0;
    while k < p.len()
        invariant
            n == b@.len(),
            0 < p@.len(),
            i + p@.len() <= n,
            k <= p@.len(),
            forall|j: int| 0 <= j < k ==> b@[i + j] == p@[j],
        decreases p@.len() - k,
    {
        if b[i + k] != p[k] {
            proof { assert(b@.subrange(i as int, i + p@.len())[k as int] != p@[k as int]); }
            return false;
        }
        k += 1;
    }
    proof { assert(b@.subrange(i as int, i + p@.len()) =~= p@); }
    true
}

/// The message and help text of a violation.
fn build_message(display: &str, fn_type: &str, name: &Option<String>, kind: ViolationKind) -> (r: (String, String))
    ensures
        r.0@ == violation_message(kind, display@, fn_type@, opt_view(*name)),
        r.1@ == violation_help(kind, display@),
{
    let mut msg = String::new();
    let mut help = String::new();
    match kind {
        ViolationKind::ClientInServer | ViolationKind::ServerInClient => {
            let server = match kind {
                ViolationKind::ClientInServer => true,
                _ => false,
            };
            if server {
                push_str(&mut msg, "client-only API `");
            } else {
                push_str(&mut msg, "server-only API `");
            }
            push_str(&mut msg, display);
            if server {
                push_str(&mut msg, "` used in server function");
            } else {
                push_str(&mut msg, "` used in client function");
            }
            let ghost before = msg@;
            match name {
                Some(n) => {
                    push_str(&mut msg, " `");
                    push_str(&mut msg, n.as_str());
                    push_str(&mut msg, "`");
                },
                None => {},
            }
            proof { assert(msg@ =~= before + name_part(opt_view(*name))); }
            push_str(&mut msg, " (-> ");
            push_str(&mut msg, fn_type);
            push_str(&mut msg, ")");
            push_str(&mut help, "`");
            push_str(&mut help, display);
            if server {
                push_str(&mut help, "` only works in `-> Client` or `-> Component` functions.\n           Move this code to a Client function, or use server-side alternatives.");
            } else {
                push_str(&mut help, "` only works in server functions (-> Html, -> Fragment).\n           Client functions run in the browser and cannot use server APIs.");
            }
        },
        ViolationKind::ComponentOnlyInClient => {
            push_str(&mut msg, "`use_state` can only be used in `-> Component` functions, not `-> Client`");
            push_str(&mut help, "`use_state` initializes component state slots and requires a Component function.\n           Change `-> Client` to `-> Component`, or use `state::get_i32`/`state::set_i32`\n           to access state from a Client function.");
        },
        ViolationKind::TopLevelForbidden => {
            push_str(&mut msg, "`");
            push_str(&mut msg, display);
            push_str(&mut msg, "` cannot be used at the top level of a .volki file");
            push_str(&mut help, "`");
            push_str(&mut help, display);
            push_str(&mut help, "` is a runtime API that must be called inside a function body.\n           Move it inside a `-> Component` or `-> Client` function.");
        },
    }
    (msg, help)
}

/// Scans `src[from..to]` for `pats` (skipping string literals and comments) and
/// appends a violation for each find.
fn scan_body(
    src: &[u8],
    from: usize,
    to: usize,
    pats: &Vec<ApiPattern>,
    fn_type: &str,
    name: &Option<String>,
    kind: ViolationKind,
    out: &mut Vec<BoundaryViolation>,
)
    requires
        from <= to <= src@.len(),
    ensures
        final(out)@.len() == old(out)@.len() + body_findings(src@, from as int, to as int, pats@, fn_type@, opt_view(*name), kind).len(),
        forall|j: int| 0 <= j < old(out)@.len() ==> final(out)@[j] == old(out)@[j],
        forall|j: int| 0 <= j < body_findings(src@, from as int, to as int, pats@, fn_type@, opt_view(*name), kind).len()
            ==> violation_is(#[trigger] final(out)@[old(out)@.len() + j], src@,
                body_findings(src@, from as int, to as int, pats@, fn_type@, opt_view(*name), kind)[j]),
{
    let b = &src[from..to];
    let n = b.len();
    let ghost old_len = out@.len();
    let ghost old_out = out@;
    let ghost all = scan_hits(b@, 0, pats@);
    let ghost mut done: Seq<(int, int)> = Seq::empty();
    let mut i: usize = 0;
    while i < n
        invariant
            n == b@.len(),
            b@ == src@.subrange(from as int, to as int),
            from <= to <= src@.len(),
            i <= n,
            all == scan_hits(b@, 0, pats@),
            all == done + scan_hits(b@, i as int, pats@),
            out@.len() == old_len + done.len(),
            old_len == old_out.len(),
            forall|j: int| 0 <= j < old_len ==> out@[j] == old_out[j],
            forall|j: int| 0 <= j < done.len() ==> 0 <= (#[trigger] done[j]).0 < n && 0 <= done[j].1 < pats@.len(),
            forall|j: int| 0 <= j < done.len() ==> violation_is(#[trigger] out@[old_len + j], src@,
                (from + done[j].0, pats@[done[j].1].display@, fn_type@, opt_view(*name), kind)),
        decreases n - i,
    {
        let c = b[i];
        if c == 0x22 {
            i = skip_string(b, i);
            continue;
        }
        if c == 0x2F && n - i > 1 && b[i + 1] == 0x2F {
            i = skip_line_comment(b, i);
            continue;
        }
        if c == 0x2F && n - i > 1 && b[i + 1] == 0x2A {
            i = skip_block_comment(b, i);
            continue;
        }
        let mut k: usize = 0;
        while k < pats.len() && !match_here(b, i, pats[k].text.as_bytes())
            invariant
                k <= pats@.len(),
                first_match(b@, i as int, pats@, 0) == first_match(b@, i as int, pats@, k as int),
            decreases pats@.len() - k,
        {
            k += 1;
        }
        if k < pats.len() {
            let p = pats[k];
            let plen = p.text.as_bytes().len();
            let (line, col) = line_col_at(src, from + i);
            let (message, help) = build_message(p.display, fn_type, name, kind);
            let fn_name = match name {
                Some(s) => Some(s.clone()),
                None => None,
            };
            let v = BoundaryViolation {
                line,
                col,
                pattern: p.display.to_owned(),
                fn_type: fn_type.to_owned(),
                fn_name,
                message,
                help,
            };
            proof {
                lemma_first_match(b@, i as int, pats@, 0);
                assert(line_col(src@, from + i) == line_col(src@, (from + i) as int));
                assert(opt_view(v.fn_name) == opt_view(*name));
            }
            let ghost before_push = out@;
            out.push(v);
            proof {
                let ghost prev = done;
                done = done.push((i as int, k as int));
                assert(all =~= done + scan_hits(b@, i + plen, pats@));
                assert forall|j: int| 0 <= j < done.len() implies violation_is(#[trigger] out@[old_len + j], src@,
                    (from + done[j].0, pats@[done[j].1].display@, fn_type@, opt_view(*name), kind)) by {
                    if j < prev.len() {
                        assert(out@[old_len + j] == before_push[old_len + j]);
                    }
                }
            }
            i = i + plen;
            continue;
        }
        i += 1;
    }
    proof {
        assert(done =~= all);
        let bf = body_findings(src@, from as int, to as int, pats@, fn_type@, opt_view(*name), kind);
        assert forall|j: int| 0 <= j < bf.len() implies violation_is(#[trigger] out@[old_len + j], src@, bf[j]) by {
            assert(bf[j] == (from + done[j].0, pats@[done[j].1].display@, fn_type@, opt_view(*name), kind));
        }
    }
}

/// The findings in the body of one function.
pub open spec fn function_findings(src: Seq<u8>, f: RsxFunction) -> Seq<Finding> {
    let a = f.body_span.0 as int;
    let z = f.body_span.1 as int;
    let name = opt_view(f.name);
    match f.return_type {
        RsxReturnType::Html => body_findings(src, a, z, client_only_list(), "Html"@, name, ViolationKind::ClientInServer),
        RsxReturnType::Fragment => body_findings(src, a, z, client_only_list(), "Fragment"@, name, ViolationKind::ClientInServer),
        RsxReturnType::Client => body_findings(src, a, z, server_only_list(), "Client"@, name, ViolationKind::ServerInClient)
            + body_findings(src, a, z, component_only_list(), "Client"@, name, ViolationKind::ComponentOnlyInClient),
        RsxReturnType::Component => body_findings(src, a, z, server_only_list(), "Component"@, name, ViolationKind::ServerInClient),
    }
}

/// The findings in the bodies of `fns`, function by function.
pub open spec fn all_findings(src: Seq<u8>, fns: Seq<RsxFunction>) -> Seq<Finding>
    decreases fns.len(),
{
    if fns.len() == 0 {
        Seq::empty()
    } else {
        all_findings(src, fns.drop_last()) + function_findings(src, fns.last())
    }
}

/// An ASCII white-space byte: space, tab, line feed or carriage return.
pub open spec fn ws_byte(c: u8) -> bool {
    c == 0x20 || c == 0x09 || c == 0x0A || c == 0x0D
}

/// The server-only API names: `Response::`, `HtmlDocument::`, `Metadata::new`,
/// `StatusCode::` and `Headers::`.
pub open spec fn server_api_name(t: Seq<char>) -> bool {
    t == "Response::"@ || t == "HtmlDocument::"@ || t == "Metadata::new"@ || t == "StatusCode::"@ || t == "Headers::"@
}

/// The bytes of a text whose characters are all ASCII are those characters.
proof fn lemma_ascii_bytes(t: Seq<char>)
    requires
        vstd::utf8::is_ascii_chars(t),
    ensures
        vstd::utf8::encode_utf8(t).len() == t.len(),
        forall|i: int| 0 <= i < t.len() ==> #[trigger] vstd::utf8::encode_utf8(t)[i] == t[i] as u8,
{
    vstd::utf8::is_ascii_chars_encode_utf8(t);
}

/// The first two bytes of each server-only pattern.
proof fn lemma_server_bytes()
    ensures
        server_only_list().len() == 5,
        forall|k: int| 0 <= k < 5 ==> (#[trigger] server_only_list()[k]).text.spec_bytes().len() >= 2
            && server_only_list()[k].display@ == server_only_list()[k].text@,
        server_only_list()[0].text@ == "Response::"@,
        server_only_list()[1].text@ == "HtmlDocument::"@,
        server_only_list()[2].text@ == "Metadata::new"@,
        server_only_list()[3].text@ == "StatusCode::"@,
        server_only_list()[4].text@ == "Headers::"@,
        server_only_list()[0].text.spec_bytes()[0] == 0x52,
        server_only_list()[1].text.spec_bytes()[0] == 0x48 && server_only_list()[1].text.spec_bytes()[1] == 0x74,
        server_only_list()[2].text.spec_bytes()[0] == 0x4D,
        server_only_list()[3].text.spec_bytes()[0] == 0x53,
        server_only_list()[4].text.spec_bytes()[0] == 0x48 && server_only_list()[4].text.spec_bytes()[1] == 0x65,
{
    reveal_strlit("Response::");
    reveal_strlit("HtmlDocument::");
    reveal_strlit("Metadata::new");
    reveal_strlit("StatusCode::");
    reveal_strlit("Headers::");
    let l = server_only_list();
    lemma_ascii_bytes(l[0].text@);
    lemma_ascii_bytes(l[1].text@);
    lemma_ascii_bytes(l[2].text@);
    lemma_ascii_bytes(l[3].text@);
    lemma_ascii_bytes(l[4].text@);
    assert(l[0].text.spec_bytes()[0] == l[0].text@[0] as u8);
    assert(l[1].text.spec_bytes()[0] == l[1].text@[0] as u8);
    assert(l[1].text.spec_bytes()[1] == l[1].text@[1] as u8);
    assert(l[2].text.spec_bytes()[0] == l[2].text@[0] as u8);
    assert(l[3].text.spec_bytes()[0] == l[3].text@[0] as u8);
    assert(l[4].text.spec_bytes()[0] == l[4].text@[0] as u8);
    assert(l[4].text.spec_bytes()[1] == l[4].text@[1] as u8);
}

/// A pattern whose first byte differs from the byte at `i` does not stand there.
proof fn lemma_no_match(b: Seq<u8>, i: int, p: Seq<u8>)
    requires
        0 <= i < b.len(),
        p.len() > 0,
        b[i] != p[0],
    ensures
        !match_at(b, i, p),
{
    if match_at(b, i, p) {
        assert(b.subrange(i, i + p.len())[0] == b[i]);
    }
}

/// The first pattern standing at `i` is the `j`-th when none before it does and it does.
proof fn lemma_first_is(b: Seq<u8>, i: int, pats: Seq<ApiPattern>, k: int, j: int)
    requires
        0 <= k <= j <= pats.len(),
        forall|m: int| k <= m < j ==> !match_at(b, i, (#[trigger] pats[m]).text.spec_bytes()),
        j < pats.len() ==> match_at(b, i, pats[j].text.spec_bytes()),
    ensures
        first_match(b, i, pats, k) == j,
    decreases j - k,
{
    if k < j {
        lemma_first_is(b, i, pats, k + 1, j);
    }
}

/// Scanning for server-only APIs passes over white space.
proof fn lemma_skip_ws(b: Seq<u8>, i: int, n: int)
    requires
        0 <= i <= n < b.len(),
        forall|t: int| i <= t < n ==> ws_byte(#[trigger] b[t]),
    ensures
        scan_hits(b, i, server_only_list()) == scan_hits(b, n, server_only_list()),
    decreases n - i,
{
    if i < n {
        let pats = server_only_list();
        lemma_server_bytes();
        assert(ws_byte(b[i]));
        assert forall|m: int| 0 <= m < 5 implies !match_at(b, i, (#[trigger] pats[m]).text.spec_bytes()) by {
            lemma_no_match(b, i, pats[m].text.spec_bytes());
        }
        lemma_first_is(b, i, pats, 0, 5);
        lemma_skip_ws(b, i + 1, n);
    }
}

/// Server-only APIs are refused in client code: in a `-> Client` or `-> Component`
/// function whose body, after any white space, begins with a server-only API
/// (`Response::`, `HtmlDocument::`, `Metadata::new`, `StatusCode::`, `Headers::`),
/// the findings hold a `ServerInClient` violation naming that API at its place.
pub proof fn law_server_api_in_client(src: Seq<u8>, f: RsxFunction, ws: Seq<u8>, api: Seq<char>, rest: Seq<u8>)
    ensures
        (f.return_type == RsxReturnType::Client || f.return_type == RsxReturnType::Component)
            && function_ok(src, f)
            && (forall|t: int| 0 <= t < ws.len() ==> ws_byte(#[trigger] ws[t]))
            && server_api_name(api)
            && src.subrange(f.body_span.0 as int, f.body_span.1 as int) == ws + vstd::utf8::encode_utf8(api) + rest
        ==> function_findings(src, f).contains((f.body_span.0 + ws.len(), api,
                if f.return_type == RsxReturnType::Client { "Client"@ } else { "Component"@ },
                opt_view(f.name), ViolationKind::ServerInClient)),
{
    if (f.return_type == RsxReturnType::Client || f.return_type == RsxReturnType::Component)
        && function_ok(src, f)
        && (forall|t: int| 0 <= t < ws.len() ==> ws_byte(#[trigger] ws[t]))
        && server_api_name(api)
        && src.subrange(f.body_span.0 as int, f.body_span.1 as int) == ws + vstd::utf8::encode_utf8(api) + rest {
        let a = f.body_span.0 as int;
        let z = f.body_span.1 as int;
        let b = src.subrange(a, z);
        let pats = server_only_list();
        let n = ws.len() as int;
        lemma_server_bytes();
        let j: int = if api == "Response::"@ { 0 } else if api == "HtmlDocument::"@ { 1 } else if api == "Metadata::new"@ { 2 }
            else if api == "StatusCode::"@ { 3 } else { 4 };
        assert(pats[j].text@ == api);
        let pb = pats[j].text.spec_bytes();
        assert(pb == vstd::utf8::encode_utf8(api));
        assert(b.subrange(n, n + pb.len()) =~= pb);
        assert(match_at(b, n, pb));
        assert(b[n] == pb[0]);
        assert forall|t: int| 0 <= t < n implies ws_byte(#[trigger] b[t]) by {
            assert(b[t] == ws[t]);
        }
        lemma_skip_ws(b, 0, n);
        assert forall|m: int| 0 <= m < j implies !match_at(b, n, (#[trigger] pats[m]).text.spec_bytes()) by {
            if pats[m].text.spec_bytes()[0] != b[n] {
                lemma_no_match(b, n, pats[m].text.spec_bytes());
            } else {
                assert(m == 1 && j == 4);
                if match_at(b, n, pats[m].text.spec_bytes()) {
                    assert(b.subrange(n, n + pats[m].text.spec_bytes().len())[1] == b[n + 1]);
                    assert(b.subrange(n, n + pb.len())[1] == b[n + 1]);
                }
            }
        }
        lemma_first_is(b, n, pats, 0, j);
        assert(b[n] != 0x22 && b[n] != 0x2F);
        let hits = scan_hits(b, n, pats);
        assert(hits[0] == (n, j));
        let fs = body_findings(src, a, z, pats, if f.return_type == RsxReturnType::Client { "Client"@ } else { "Component"@ },
            opt_view(f.name), ViolationKind::ServerInClient);
        assert(fs[0] == (f.body_span.0 + ws.len(), api,
            if f.return_type == RsxReturnType::Client { "Client"@ } else { "Component"@ }, opt_view(f.name), ViolationKind::ServerInClient));
        assert(function_findings(src, f)[0] == fs[0]);
    }
}

/// A call pattern: ASCII text of two or more characters whose only `(` ends it,
/// starting with neither white space, `"` nor `/`, reported by its text without the `(`.
pub open spec fn call_pattern(p: ApiPattern) -> bool {
    let t = p.text@;
    &&& vstd::utf8::is_ascii_chars(t)
    &&& t.len() >= 2
    &&& t[t.len() - 1] == '('
    &&& forall|i: int| 0 <= i < t.len() - 1 ==> t[i] != '('
    &&& t[0] != ' ' && t[0] != '\t' && t[0] != '\n' && t[0] != '\r' && t[0] != '"' && t[0] != '/'
    &&& p.display@ == t.drop_last()
}

/// The bytes of a call pattern.
proof fn lemma_call_bytes(p: ApiPattern)
    requires
        call_pattern(p),
    ensures
        p.text.spec_bytes().len() == p.text@.len(),
        p.text.spec_bytes()[p.text@.len() - 1] == 0x28,
        forall|i: int| 0 <= i < p.text@.len() - 1 ==> #[trigger] p.text.spec_bytes()[i] != 0x28,
        !ws_byte(p.text.spec_bytes()[0]),
        p.text.spec_bytes()[0] != 0x22 && p.text.spec_bytes()[0] != 0x2F,
{
    let t = p.text@;
    lemma_ascii_bytes(t);
    assert(p.text.spec_bytes()[t.len() - 1] == t[t.len() - 1] as u8);
    assert(p.text.spec_bytes()[0] == t[0] as u8);
    assert forall|i: int| 0 <= i < t.len() - 1 implies #[trigger] p.text.spec_bytes()[i] != 0x28 by {
        assert(p.text.spec_bytes()[i] == t[i] as u8);
        assert(t[i] != '(');
        assert('\0' <= t[i] <= '\u{7f}');
    }
    assert('\0' <= t[0] <= '\u{7f}');
}

/// Scanning for call patterns passes over white space.
proof fn lemma_skip_ws_calls(b: Seq<u8>, i: int, n: int, pats: Seq<ApiPattern>)
    requires
        0 <= i <= n < b.len(),
        forall|t: int| i <= t < n ==> ws_byte(#[trigger] b[t]),
        forall|k: int| 0 <= k < pats.len() ==> call_pattern(#[trigger] pats[k]),
    ensures
        scan_hits(b, i, pats) == scan_hits(b, n, pats),
    decreases n - i,
{
    if i < n {
        assert(ws_byte(b[i]));
        assert forall|m: int| 0 <= m < pats.len() implies !match_at(b, i, (#[trigger] pats[m]).text.spec_bytes()) by {
            lemma_call_bytes(pats[m]);
            lemma_no_match(b, i, pats[m].text.spec_bytes());
        }
        lemma_first_is(b, i, pats, 0, pats.len() as int);
        lemma_skip_ws_calls(b, i + 1, n, pats);
    }
}

/// Two call patterns that both stand at `n` are the same text.
proof fn lemma_calls_agree(b: Seq<u8>, n: int, p1: ApiPattern, p2: ApiPattern)
    requires
        call_pattern(p1),
        call_pattern(p2),
        match_at(b, n, p1.text.spec_bytes()),
        match_at(b, n, p2.text.spec_bytes()),
    ensures
        p1.text@ == p2.text@,
{
    lemma_call_bytes(p1);
    lemma_call_bytes(p2);
    let x = p1.text.spec_bytes();
    let y = p2.text.spec_bytes();
    let l1 = x.len() as int;
    let l2 = y.len() as int;
    if l1 < l2 {
        assert(b.subrange(n, n + l1)[l1 - 1] == b[n + l1 - 1]);
        assert(b.subrange(n, n + l2)[l1 - 1] == b[n + l1 - 1]);
        assert(y[l1 - 1] != 0x28);
    } else if l2 < l1 {
        assert(b.subrange(n, n + l2)[l2 - 1] == b[n + l2 - 1]);
        assert(b.subrange(n, n + l1)[l2 - 1] == b[n + l2 - 1]);
        assert(x[l2 - 1] != 0x28);
    }
    assert(x == y);
    vstd::utf8::encode_utf8_decode_utf8(p1.text@);
    vstd::utf8::encode_utf8_decode_utf8(p2.text@);
}

/// The first of `pats[k..]` standing at `n` comes no later than one that stands there.
proof fn lemma_first_no_later(b: Seq<u8>, n: int, pats: Seq<ApiPattern>, k: int, j: int)
    requires
        0 <= k <= j < pats.len(),
        match_at(b, n, pats[j].text.spec_bytes()),
    ensures
        first_match(b, n, pats, k) <= j,
    decreases j - k,
{
    if k < j && !match_at(b, n, pats[k].text.spec_bytes()) {
        lemma_first_no_later(b, n, pats, k + 1, j);
    }
}

/// A call pattern of `pats` at the start of the scanned text, after white space,
/// is found there and reported by its text without the `(`.
proof fn lemma_call_found(b: Seq<u8>, ws: Seq<u8>, api: Seq<char>, rest: Seq<u8>, pats: Seq<ApiPattern>, j: int)
    requires
        forall|k: int| 0 <= k < pats.len() ==> call_pattern(#[trigger] pats[k]),
        0 <= j < pats.len(),
        pats[j].text@ == api,
        forall|t: int| 0 <= t < ws.len() ==> ws_byte(#[trigger] ws[t]),
        b == ws + vstd::utf8::encode_utf8(api) + rest,
    ensures
        scan_hits(b, 0, pats).len() > 0,
        scan_hits(b, 0, pats)[0].0 == ws.len(),
        pats[scan_hits(b, 0, pats)[0].1].display@ == api.drop_last(),
{
    let n = ws.len() as int;
    let pb = pats[j].text.spec_bytes();
    assert(call_pattern(pats[j]));
    lemma_call_bytes(pats[j]);
    assert(pb == vstd::utf8::encode_utf8(api));
    assert(b.subrange(n, n + pb.len()) =~= pb);
    assert(match_at(b, n, pb));
    assert(b[n] == pb[0]);
    assert forall|t: int| 0 <= t < n implies ws_byte(#[trigger] b[t]) by {
        assert(b[t] == ws[t]);
    }
    lemma_skip_ws_calls(b, 0, n, pats);
    lemma_first_no_later(b, n, pats, 0, j);
    lemma_first_match(b, n, pats, 0);
    let r = first_match(b, n, pats, 0);
    assert(call_pattern(pats[r]));
    lemma_calls_agree(b, n, pats[r], pats[j]);
    assert(b[n] != 0x22 && b[n] != 0x2F);
    assert(scan_hits(b, n, pats)[0] == (n, r));
}

/// The client-only API names.
pub open spec fn client_api_names() -> Seq<Seq<char>> {
    seq![
        "dom::query("@, "dom::log("@, ".set_text("@, ".get_value("@, ".set_attr("@, ".add_class("@,
        ".remove_class("@, "use_state("@, "state::get_i32("@, "state::set_i32("@, "state::get_f32("@,
        "state::set_f32("@, "state::get_str("@, "state::set_str("@, "state::fmt_i32("@, "state::fmt_f32("@,
        "dom::create("@, "dom::append("@, "dom::remove("@, "dom::set_html("@, ".toggle_class("@,
        ".get_attr("@, ".remove_attr("@, "dom::query_all_count("@, "dom::query_all_get("@, "use_ref("@,
        "use_ref_el("@, "ref::get_i32("@, "ref::set_i32("@, "ref::get_f32("@, "ref::set_f32("@,
        "use_effect("@, "use_memo_i32("@, "use_memo_f32("@,
    ]
}

/// The component-only API names.
pub open spec fn component_api_names() -> Seq<Seq<char>> {
    seq!["use_state("@, "use_ref("@, "use_ref_el("@, "use_effect("@, "use_memo_i32("@, "use_memo_f32("@]
}

/// Each entry of `client_only_list` is a call pattern, in the order of `client_api_names`.
#[verifier::rlimit(60)]
proof fn lemma_client_list()
    ensures
        client_only_list().len() == 34,
        client_api_names().len() == 34,
        forall|k: int| 0 <= k < 34 ==> call_pattern(#[trigger] client_only_list()[k]) && client_only_list()[k].text@ == client_api_names()[k],
{
    reveal_strlit(".add_class");
    reveal_strlit(".add_class(");
    reveal_strlit(".get_attr");
    reveal_strlit(".get_attr(");
    reveal_strlit(".get_value");
    reveal_strlit(".get_value(");
    reveal_strlit(".remove_attr");
    reveal_strlit(".remove_attr(");
    reveal_strlit(".remove_class");
    reveal_strlit(".remove_class(");
    reveal_strlit(".set_attr");
    reveal_strlit(".set_attr(");
    reveal_strlit(".set_text");
    reveal_strlit(".set_text(");
    reveal_strlit(".toggle_class");
    reveal_strlit(".toggle_class(");
    reveal_strlit("dom::append");
    reveal_strlit("dom::append(");
    reveal_strlit("dom::create");
    reveal_strlit("dom::create(");
    reveal_strlit("dom::log");
    reveal_strlit("dom::log(");
    reveal_strlit("dom::query");
    reveal_strlit("dom::query(");
    reveal_strlit("dom::query_all_count");
    reveal_strlit("dom::query_all_count(");
    reveal_strlit("dom::query_all_get");
    reveal_strlit("dom::query_all_get(");
    reveal_strlit("dom::remove");
    reveal_strlit("dom::remove(");
    reveal_strlit("dom::set_html");
    reveal_strlit("dom::set_html(");
    reveal_strlit("ref::get_f32");
    reveal_strlit("ref::get_f32(");
    reveal_strlit("ref::get_i32");
    reveal_strlit("ref::get_i32(");
    reveal_strlit("ref::set_f32");
    reveal_strlit("ref::set_f32(");
    reveal_strlit("ref::set_i32");
    reveal_strlit("ref::set_i32(");
    reveal_strlit("state::fmt_f32");
    reveal_strlit("state::fmt_f32(");
    reveal_strlit("state::fmt_i32");
    reveal_strlit("state::fmt_i32(");
    reveal_strlit("state::get_f32");
    reveal_strlit("state::get_f32(");
    reveal_strlit("state::get_i32");
    reveal_strlit("state::get_i32(");
    reveal_strlit("state::get_str");
    reveal_strlit("state::get_str(");
    reveal_strlit("state::set_f32");
    reveal_strlit("state::set_f32(");
    reveal_strlit("state::set_i32");
    reveal_strlit("state::set_i32(");
    reveal_strlit("state::set_str");
    reveal_strlit("state::set_str(");
    reveal_strlit("use_effect");
    reveal_strlit("use_effect(");
    reveal_strlit("use_memo_f32");
    reveal_strlit("use_memo_f32(");
    reveal_strlit("use_memo_i32");
    reveal_strlit("use_memo_i32(");
    reveal_strlit("use_ref");
    reveal_strlit("use_ref(");
    reveal_strlit("use_ref_el");
    reveal_strlit("use_ref_el(");
    reveal_strlit("use_state");
    reveal_strlit("use_state(");
    let l = client_only_list();
    assert(l[0].display@ =~= l[0].text@.drop_last());
    assert(call_pattern(l[0]) && l[0].text@ == client_api_names()[0]);
    assert(l[1].display@ =~= l[1].text@.drop_last());
    assert(call_pattern(l[1]) && l[1].text@ == client_api_names()[1]);
    assert(l[2].display@ =~= l[2].text@.drop_last());
    assert(call_pattern(l[2]) && l[2].text@ == client_api_names()[2]);
    assert(l[3].display@ =~= l[3].text@.drop_last());
    assert(call_pattern(l[3]) && l[3].text@ == client_api_names()[3]);
    assert(l[4].display@ =~= l[4].text@.drop_last());
    assert(call_pattern(l[4]) && l[4].text@ == client_api_names()[4]);
    assert(l[5].display@ =~= l[5].text@.drop_last());
    assert(call_pattern(l[5]) && l[5].text@ == client_api_names()[5]);
    assert(l[6].display@ =~= l[6].text@.drop_last());
    assert(call_pattern(l[6]) && l[6].text@ == client_api_names()[6]);
    assert(l[7].display@ =~= l[7].text@.drop_last());
    assert(call_pattern(l[7]) && l[7].text@ == client_api_names()[7]);
    assert(l[8].display@ =~= l[8].text@.drop_last());
    assert(call_pattern(l[8]) && l[8].text@ == client_api_names()[8]);
    assert(l[9].display@ =~= l[9].text@.drop_last());
    assert(call_pattern(l[9]) && l[9].text@ == client_api_names()[9]);
    assert(l[10].display@ =~= l[10].text@.drop_last());
    assert(call_pattern(l[10]) && l[10].text@ == client_api_names()[10]);
    assert(l[11].display@ =~= l[11].text@.drop_last());
    assert(call_pattern(l[11]) && l[11].text@ == client_api_names()[11]);
    assert(l[12].display@ =~= l[12].text@.drop_last());
    assert(call_pattern(l[12]) && l[12].text@ == client_api_names()[12]);
    assert(l[13].display@ =~= l[13].text@.drop_last());
    assert(call_pattern(l[13]) && l[13].text@ == client_api_names()[13]);
    assert(l[14].display@ =~= l[14].text@.drop_last());
    assert(call_pattern(l[14]) && l[14].text@ == client_api_names()[14]);
    assert(l[15].display@ =~= l[15].text@.drop_last());
    assert(call_pattern(l[15]) && l[15].text@ == client_api_names()[15]);
    assert(l[16].display@ =~= l[16].text@.drop_last());
    assert(call_pattern(l[16]) && l[16].text@ == client_api_names()[16]);
    assert(l[17].display@ =~= l[17].text@.drop_last());
    assert(call_pattern(l[17]) && l[17].text@ == client_api_names()[17]);
    assert(l[18].display@ =~= l[18].text@.drop_last());
    assert(call_pattern(l[18]) && l[18].text@ == client_api_names()[18]);
    assert(l[19].display@ =~= l[19].text@.drop_last());
    assert(call_pattern(l[19]) && l[19].text@ == client_api_names()[19]);
    assert(l[20].display@ =~= l[20].text@.drop_last());
    assert(call_pattern(l[20]) && l[20].text@ == client_api_names()[20]);
    assert(l[21].display@ =~= l[21].text@.drop_last());
    assert(call_pattern(l[21]) && l[21].text@ == client_api_names()[21]);
    assert(l[22].display@ =~= l[22].text@.drop_last());
    assert(call_pattern(l[22]) && l[22].text@ == client_api_names()[22]);
    assert(l[23].display@ =~= l[23].text@.drop_last());
    assert(call_pattern(l[23]) && l[23].text@ == client_api_names()[23]);
    assert(l[24].display@ =~= l[24].text@.drop_last());
    assert(call_pattern(l[24]) && l[24].text@ == client_api_names()[24]);
    assert(l[25].display@ =~= l[25].text@.drop_last());
    assert(call_pattern(l[25]) && l[25].text@ == client_api_names()[25]);
    assert(l[26].display@ =~= l[26].text@.drop_last());
    assert(call_pattern(l[26]) && l[26].text@ == client_api_names()[26]);
    assert(l[27].display@ =~= l[27].text@.drop_last());
    assert(call_pattern(l[27]) && l[27].text@ == client_api_names()[27]);
    assert(l[28].display@ =~= l[28].text@.drop_last());
    assert(call_pattern(l[28]) && l[28].text@ == client_api_names()[28]);
    assert(l[29].display@ =~= l[29].text@.drop_last());
    assert(call_pattern(l[29]) && l[29].text@ == client_api_names()[29]);
    assert(l[30].display@ =~= l[30].text@.drop_last());
    assert(call_pattern(l[30]) && l[30].text@ == client_api_names()[30]);
    assert(l[31].display@ =~= l[31].text@.drop_last());
    assert(call_pattern(l[31]) && l[31].text@ == client_api_names()[31]);
    assert(l[32].display@ =~= l[32].text@.drop_last());
    assert(call_pattern(l[32]) && l[32].text@ == client_api_names()[32]);
    assert(l[33].display@ =~= l[33].text@.drop_last());
    assert(call_pattern(l[33]) && l[33].text@ == client_api_names()[33]);
}

/// Each entry of `component_only_list` is a call pattern, in the order of `component_api_names`.
#[verifier::rlimit(60)]
proof fn lemma_component_list()
    ensures
        component_only_list().len() == 6,
        component_api_names().len() == 6,
        forall|k: int| 0 <= k < 6 ==> call_pattern(#[trigger] component_only_list()[k]) && component_only_list()[k].text@ == component_api_names()[k],
{
    reveal_strlit("use_effect");
    reveal_strlit("use_effect(");
    reveal_strlit("use_memo_f32");
    reveal_strlit("use_memo_f32(");
    reveal_strlit("use_memo_i32");
    reveal_strlit("use_memo_i32(");
    reveal_strlit("use_ref");
    reveal_strlit("use_ref(");
    reveal_strlit("use_ref_el");
    reveal_strlit("use_ref_el(");
    reveal_strlit("use_state");
    reveal_strlit("use_state(");
    let l = component_only_list();
    assert(l[0].display@ =~= l[0].text@.drop_last());
    assert(call_pattern(l[0]) && l[0].text@ == component_api_names()[0]);
    assert(l[1].display@ =~= l[1].text@.drop_last());
    assert(call_pattern(l[1]) && l[1].text@ == component_api_names()[1]);
    assert(l[2].display@ =~= l[2].text@.drop_last());
    assert(call_pattern(l[2]) && l[2].text@ == component_api_names()[2]);
    assert(l[3].display@ =~= l[3].text@.drop_last());
    assert(call_pattern(l[3]) && l[3].text@ == component_api_names()[3]);
    assert(l[4].display@ =~= l[4].text@.drop_last());
    assert(call_pattern(l[4]) && l[4].text@ == component_api_names()[4]);
    assert(l[5].display@ =~= l[5].text@.drop_last());
    assert(call_pattern(l[5]) && l[5].text@ == component_api_names()[5]);
}

/// Client-only APIs are refused in server code: in a `-> Html` or `-> Fragment`
/// function whose body, after any white space, begins with a client-only API call
/// (one of `client_api_names`), the findings hold a `ClientInServer` violation
/// naming that API (without its `(`) at its place.
pub proof fn law_client_api_in_server(src: Seq<u8>, f: RsxFunction, ws: Seq<u8>, api: Seq<char>, rest: Seq<u8>)
    ensures
        (f.return_type == RsxReturnType::Html || f.return_type == RsxReturnType::Fragment)
            && function_ok(src, f)
            && (forall|t: int| 0 <= t < ws.len() ==> ws_byte(#[trigger] ws[t]))
            && client_api_names().contains(api)
            && src.subrange(f.body_span.0 as int, f.body_span.1 as int) == ws + vstd::utf8::encode_utf8(api) + rest
        ==> function_findings(src, f).contains((f.body_span.0 + ws.len(), api.drop_last(),
                if f.return_type == RsxReturnType::Html { "Html"@ } else { "Fragment"@ },
                opt_view(f.name), ViolationKind::ClientInServer)),
{
    if (f.return_type == RsxReturnType::Html || f.return_type == RsxReturnType::Fragment)
        && function_ok(src, f)
        && (forall|t: int| 0 <= t < ws.len() ==> ws_byte(#[trigger] ws[t]))
        && client_api_names().contains(api)
        && src.subrange(f.body_span.0 as int, f.body_span.1 as int) == ws + vstd::utf8::encode_utf8(api) + rest {
        let a = f.body_span.0 as int;
        let z = f.body_span.1 as int;
        let b = src.subrange(a, z);
        let pats = client_only_list();
        lemma_client_list();
        let j = choose|j: int| 0 <= j < client_api_names().len() && client_api_names()[j] == api;
        lemma_call_found(b, ws, api, rest, pats, j);
        let h = scan_hits(b, 0, pats)[0];
        let fs = body_findings(src, a, z, pats, if f.return_type == RsxReturnType::Html { "Html"@ } else { "Fragment"@ },
            opt_view(f.name), ViolationKind::ClientInServer);
        assert(fs[0] == (a + h.0, pats[h.1].display@, if f.return_type == RsxReturnType::Html { "Html"@ } else { "Fragment"@ },
            opt_view(f.name), ViolationKind::ClientInServer));
        assert(function_findings(src, f)[0] == fs[0]);
    }
}

/// Component-only APIs are refused in client code: in a `-> Client` function whose
/// body, after any white space, begins with a component-only API call (one of
/// `component_api_names`), the findings hold a `ComponentOnlyInClient` violation
/// naming that API (without its `(`) at its place.
pub proof fn law_component_api_in_client(src: Seq<u8>, f: RsxFunction, ws: Seq<u8>, api: Seq<char>, rest: Seq<u8>)
    ensures
        f.return_type == RsxReturnType::Client
            && function_ok(src, f)
            && (forall|t: int| 0 <= t < ws.len() ==> ws_byte(#[trigger] ws[t]))
            && component_api_names().contains(api)
            && src.subrange(f.body_span.0 as int, f.body_span.1 as int) == ws + vstd::utf8::encode_utf8(api) + rest
        ==> function_findings(src, f).contains((f.body_span.0 + ws.len(), api.drop_last(), "Client"@,
                opt_view(f.name), ViolationKind::ComponentOnlyInClient)),
{
    if f.return_type == RsxReturnType::Client
        && function_ok(src, f)
        && (forall|t: int| 0 <= t < ws.len() ==> ws_byte(#[trigger] ws[t]))
        && component_api_names().contains(api)
        && src.subrange(f.body_span.0 as int, f.body_span.1 as int) == ws + vstd::utf8::encode_utf8(api) + rest {
        let a = f.body_span.0 as int;
        let z = f.body_span.1 as int;
        let b = src.subrange(a, z);
        let pats = component_only_list();
        lemma_component_list();
        let j = choose|j: int| 0 <= j < component_api_names().len() && component_api_names()[j] == api;
        lemma_call_found(b, ws, api, rest, pats, j);
        let h = scan_hits(b, 0, pats)[0];
        let first = body_findings(src, a, z, server_only_list(), "Client"@, opt_view(f.name), ViolationKind::ServerInClient);
        let fs = body_findings(src, a, z, pats, "Client"@, opt_view(f.name), ViolationKind::ComponentOnlyInClient);
        assert(fs[0] == (a + h.0, pats[h.1].display@, "Client"@, opt_view(f.name), ViolationKind::ComponentOnlyInClient));
        assert(function_findings(src, f) == first + fs);
        assert((first + fs)[first.len() as int] == fs[0]);
    }
}

/// Every finding of one function is among the findings of all the functions, so
/// `validate_boundaries` reports it.
pub proof fn law_function_findings_reported(src: Seq<u8>, fns: Seq<RsxFunction>, k: int, x: Finding)
    ensures
        0 <= k < fns.len() && function_findings(src, fns[k]).contains(x) ==> all_findings(src, fns).contains(x),
    decreases fns.len(),
{
    if 0 <= k < fns.len() && function_findings(src, fns[k]).contains(x) {
        let a = all_findings(src, fns.drop_last());
        let f = function_findings(src, fns.last());
        if k == fns.len() - 1 {
            let t = choose|t: int| 0 <= t < f.len() && f[t] == x;
            assert((a + f)[a.len() + t] == x);
        } else {
            assert(fns.drop_last()[k] == fns[k]);
            law_function_findings_reported(src, fns.drop_last(), k, x);
            let t = choose|t: int| 0 <= t < a.len() && a[t] == x;
            assert((a + f)[t] == x);
        }
    }
}

/// Checks that no function uses an API from the wrong side of the boundary:
/// client-only APIs in `-> Html` and `-> Fragment` functions, server-only APIs in
/// `-> Client` and `-> Component` functions, component-only APIs in `-> Client`
/// functions. Meant for the functions that `scan_functions` found in `source`.
pub fn validate_boundaries(functions: &[RsxFunction], source: &str) -> (r: Vec<BoundaryViolation>)
    requires
        forall|k: int| 0 <= k < functions@.len() ==> function_ok(source.spec_bytes(), #[trigger] functions@[k]),
    ensures
        r@.len() == all_findings(source.spec_bytes(), functions@).len(),
        forall|j: int| 0 <= j < r@.len() ==> violation_is(#[trigger] r@[j], source.spec_bytes(),
            all_findings(source.spec_bytes(), functions@)[j]),
{
    let src = source.as_bytes();
    let client = client_only();
    let server = server_only();
    let component = component_only();
    let mut out: Vec<BoundaryViolation> = Vec::new();
    let mut k: usize = 0;
    while k < functions.len()
        invariant
            src@ == source.spec_bytes(),
            client@ == client_only_list(),
            server@ == server_only_list(),
            component@ == component_only_list(),
            k <= functions@.len(),
            forall|m: int| 0 <= m < functions@.len() ==> function_ok(src@, #[trigger] functions@[m]),
            out@.len() == all_findings(src@, functions@.take(k as int)).len(),
            forall|j: int| 0 <= j < out@.len() ==> violation_is(#[trigger] out@[j], src@,
                all_findings(src@, functions@.take(k as int))[j]),
        decreases functions@.len() - k,
    {
        let f = &functions[k];
        let a = f.body_span.0;
        let z = f.body_span.1;
        let ghost before = out@;
        let ghost prev = all_findings(src@, functions@.take(k as int));
        proof {
            assert(function_ok(src@, functions@[k as int]));
            assert(functions@.take(k + 1).drop_last() =~= functions@.take(k as int));
        }
        match f.return_type {
            RsxReturnType::Html => {
                scan_body(src, a, z, &client, "Html", &f.name, ViolationKind::ClientInServer, &mut out);
            },
            RsxReturnType::Fragment => {
                scan_body(src, a, z, &client, "Fragment", &f.name, ViolationKind::ClientInServer, &mut out);
            },
            RsxReturnType::Client => {
                scan_body(src, a, z, &server, "Client", &f.name, ViolationKind::ServerInClient, &mut out);
                let ghost mid = out@;
                scan_body(src, a, z, &component, "Client", &f.name, ViolationKind::ComponentOnlyInClient, &mut out);
                proof {
                    let s1 = body_findings(src@, a as int, z as int, server_only_list(), "Client"@, opt_view(f.name), ViolationKind::ServerInClient);
                    let s2 = body_findings(src@, a as int, z as int, component_only_list(), "Client"@, opt_view(f.name), ViolationKind::ComponentOnlyInClient);
                    assert forall|j: int| 0 <= j < s1.len() implies violation_is(#[trigger] out@[before.len() + j], src@, s1[j]) by {
                        assert(out@[before.len() + j] == mid[before.len() + j]);
                    }
                }
            },
            RsxReturnType::Component => {
                scan_body(src, a, z, &server, "Component", &f.name, ViolationKind::ServerInClient, &mut out);
            },
        }
        proof {
            let now = all_findings(src@, functions@.take(k + 1));
            let ff = function_findings(src@, functions@[k as int]);
            assert(now =~= prev + ff);
            assert forall|j: int| 0 <= j < out@.len() implies violation_is(#[trigger] out@[j], src@, now[j]) by {
                if j < prev.len() {
                    assert(out@[j] == before[j]);
                } else {
                    let jj = j - prev.len();
                    assert(now[j] == ff[jj]);
                    match functions@[k as int].return_type {
                        RsxReturnType::Client => {
                            let s1 = body_findings(src@, a as int, z as int, server_only_list(), "Client"@, opt_view(f.name), ViolationKind::ServerInClient);
                            if jj < s1.len() {
                                assert(violation_is(out@[before.len() + jj], src@, s1[jj]));
                            } else {
                                assert(violation_is(out@[before.len() + s1.len() + (jj - s1.len())], src@, ff[jj]));
                            }
                        },
                        _ => {
                            assert(violation_is(out@[before.len() + jj], src@, ff[jj]));
                        },
                    }
                }
            }
        }
        k += 1;
    }
    proof { assert(functions@.take(functions@.len() as int) =~= functions@); }
    out
}

/// Walking back from `i`: where the nearest `fn ` (or `pub fn `) before it
/// starts, or 0.
pub open spec fn fn_keyword_start(b: Seq<u8>, i: int) -> int
    decreases i,
{
    if i <= 0 {
        0
    } else if i >= 3 && b[i - 3] == 0x66 && b[i - 2] == 0x6E && b[i - 1] == 0x20 {
        if i - 3 >= 4 && b[i - 7] == 0x70 && b[i - 6] == 0x75 && b[i - 5] == 0x62 && b[i - 4] == 0x20 {
            i - 7
        } else {
            i - 3
        }
    } else {
        fn_keyword_start(b, i - 1)
    }
}

/// The end of the whole declaration of `f`: after its closing brace.
pub open spec fn fn_extent_end(b: Seq<u8>, f: RsxFunction) -> int {
    if f.body_span.1 + 1 < b.len() { f.body_span.1 + 1 } else { b.len() as int }
}

/// The byte `p` lies in the declaration of `f` (from its `fn` to its closing brace).
pub open spec fn in_extent(b: Seq<u8>, f: RsxFunction, p: int) -> bool {
    fn_keyword_start(b, f.return_type_span.0 as int) <= p < fn_extent_end(b, f)
}

/// The byte `p` lies in the declaration of one of `fns`.
pub open spec fn covered(b: Seq<u8>, fns: Seq<RsxFunction>, p: int) -> bool {
    exists|k: int| 0 <= k < fns.len() && #[trigger] in_extent(b, fns[k], p)
}

/// The end of the run of uncovered bytes from `p`.
pub open spec fn run_end(b: Seq<u8>, fns: Seq<RsxFunction>, p: int) -> int
    decreases b.len() - p,
{
    if p >= b.len() || covered(b, fns, p) {
        p
    } else {
        run_end(b, fns, p + 1)
    }
}

pub proof fn lemma_run_end(b: Seq<u8>, fns: Seq<RsxFunction>, p: int)
    requires
        p <= b.len(),
    ensures
        p <= run_end(b, fns, p) <= b.len(),
        forall|q: int| p <= q < run_end(b, fns, p) ==> !covered(b, fns, q),
    decreases b.len() - p,
{
    if p < b.len() && !covered(b, fns, p) {
        lemma_run_end(b, fns, p + 1);
    }
}

/// The top-level regions from `p` on: the maximal runs of bytes outside every
/// function declaration, in order.
pub open spec fn gaps_from(b: Seq<u8>, fns: Seq<RsxFunction>, p: int) -> Seq<(int, int)>
    decreases b.len() - p,
{
    if p >= b.len() {
        Seq::empty()
    } else if covered(b, fns, p) {
        gaps_from(b, fns, p + 1)
    } else {
        proof { lemma_run_end(b, fns, p + 1); }
        let e = run_end(b, fns, p);
        seq![(p, e)] + gaps_from(b, fns, e)
    }
}

/// The findings of the top-level regions `gaps`, region by region.
pub open spec fn gap_findings(src: Seq<u8>, gaps: Seq<(int, int)>) -> Seq<Finding>
    decreases gaps.len(),
{
    if gaps.len() == 0 {
        Seq::empty()
    } else {
        gap_findings(src, gaps.drop_last()) + body_findings(src, gaps.last().0, gaps.last().1,
            client_only_list(), "top-level"@, None, ViolationKind::TopLevelForbidden)
    }
}

/// Walking back from `pos`: where `fn ` (or `pub fn `) starts.
fn find_fn_keyword_start(b: &[u8], pos: usize) -> (r: usize)
    requires
        pos <= b@.len(),
    ensures
        r == fn_keyword_start(b@, pos as int),
        r <= pos,
{
    let mut i = pos;
    while i > 0
        invariant
            i <= pos <= b@.len(),
            fn_keyword_start(b@, i as int) == fn_keyword_start(b@, pos as int),
        decreases i,
    {
        if i >= 3 && b[i - 3] == 0x66 && b[i - 2] == 0x6E && b[i - 1] == 0x20 {
            let fn_start = i - 3;
            if fn_start >= 4 && b[fn_start - 4] == 0x70 && b[fn_start - 3] == 0x75 && b[fn_start - 2] == 0x62
                && b[fn_start - 1] == 0x20 {
                return fn_start - 4;
            }
            return fn_start;
        }
        i -= 1;
    }
    0
}

/// Whether `p` lies in one of the declaration extents `spans`.
fn is_covered(spans: &Vec<(usize, usize)>, p: usize, b: Ghost<Seq<u8>>, fns: Ghost<Seq<RsxFunction>>) -> (r: bool)
    requires
        spans@.len() == fns@.len(),
        forall|k: int| 0 <= k < spans@.len() ==> (#[trigger] spans@[k]).0 == fn_keyword_start(b@, fns@[k].return_type_span.0 as int)
            && spans@[k].1 == fn_extent_end(b@, fns@[k]),
    ensures
        r == covered(b@, fns@, p as int),
{
    let mut k: usize = 0;
    while k < spans.len()
        invariant
            k <= spans@.len(),
            spans@.len() == fns@.len(),
            forall|m: int| 0 <= m < spans@.len() ==> (#[trigger] spans@[m]).0 == fn_keyword_start(b@, fns@[m].return_type_span.0 as int)
                && spans@[m].1 == fn_extent_end(b@, fns@[m]),
            forall|m: int| 0 <= m < k ==> !in_extent(b@, #[trigger] fns@[m], p as int),
        decreases spans@.len() - k,
    {
        if spans[k].0 <= p && p < spans[k].1 {
            proof { assert(in_extent(b@, fns@[k as int], p as int)); }
            return true;
        }
        proof { assert(spans@[k as int] == spans@[k as int]); }
        k += 1;
    }
    false
}

/// Checks that no top-level code (outside every function declaration) uses a
/// client or state API: those are runtime APIs that belong inside a
/// `-> Component` or `-> Client` function.
pub fn validate_top_level(functions: &[RsxFunction], source: &str) -> (r: Vec<BoundaryViolation>)
    requires
        forall|k: int| 0 <= k < functions@.len() ==> function_ok(source.spec_bytes(), #[trigger] functions@[k]),
    ensures
        r@.len() == gap_findings(source.spec_bytes(), gaps_from(source.spec_bytes(), functions@, 0)).len(),
        forall|j: int| 0 <= j < r@.len() ==> violation_is(#[trigger] r@[j], source.spec_bytes(),
            gap_findings(source.spec_bytes(), gaps_from(source.spec_bytes(), functions@, 0))[j]),
{
    let src = source.as_bytes();
    let n = src.len();
    let ghost b = src@;
    let ghost fns = functions@;
    let mut spans: Vec<(usize, usize)> = Vec::new();
    let mut k: usize = 0;
    while k < functions.len()
        invariant
            b == src@,
            fns == functions@,
            n == b.len(),
            src@ == source.spec_bytes(),
            k <= fns.len(),
            spans@.len() == k,
            forall|m: int| 0 <= m < fns.len() ==> function_ok(b, #[trigger] fns[m]),
            forall|m: int| 0 <= m < k ==> (#[trigger] spans@[m]).0 == fn_keyword_start(b, fns[m].return_type_span.0 as int)
                && spans@[m].1 == fn_extent_end(b, fns[m]),
        decreases fns.len() - k,
    {
        let f = &functions[k];
        proof { assert(function_ok(b, fns[k as int])); }
        let start = find_fn_keyword_start(src, f.return_type_span.0);
        let fn_end = f.body_span.1 + 1;
        let end = if fn_end < n { fn_end } else { n };
        spans.push((start, end));
        k += 1;
    }
    let mut gaps: Vec<(usize, usize)> = Vec::new();
    let ghost mut done: Seq<(int, int)> = Seq::empty();
    let mut p: usize = 0;
    while p < n
        invariant
            n == b.len(),
            p <= n,
            spans@.len() == fns.len(),
            forall|m: int| 0 <= m < spans@.len() ==> (#[trigger] spans@[m]).0 == fn_keyword_start(b, fns[m].return_type_span.0 as int)
                && spans@[m].1 == fn_extent_end(b, fns[m]),
            gaps_from(b, fns, 0) == done + gaps_from(b, fns, p as int),
            gaps@.len() == done.len(),
            forall|j: int| 0 <= j < done.len() ==> (#[trigger] gaps@[j]).0 == done[j].0 && gaps@[j].1 == done[j].1,
            forall|j: int| 0 <= j < done.len() ==> 0 <= (#[trigger] done[j]).0 <= done[j].1 <= n,
        decreases n - p,
    {
        if is_covered(&spans, p, Ghost(b), Ghost(fns)) {
            p += 1;
        } else {
            let mut e = p + 1;
            while e < n && !is_covered(&spans, e, Ghost(b), Ghost(fns))
                invariant
                    n == b.len(),
                    p < e <= n,
                    spans@.len() == fns.len(),
                    forall|m: int| 0 <= m < spans@.len() ==> (#[trigger] spans@[m]).0 == fn_keyword_start(b, fns[m].return_type_span.0 as int)
                        && spans@[m].1 == fn_extent_end(b, fns[m]),
                    run_end(b, fns, p as int) == run_end(b, fns, e as int),
                decreases n - e,
            {
                e += 1;
            }
            gaps.push((p, e));
            proof {
                assert(run_end(b, fns, e as int) == e);
                assert(gaps_from(b, fns, p as int) == seq![(p as int, e as int)] + gaps_from(b, fns, e as int));
                done = done.push((p as int, e as int));
                assert(gaps_from(b, fns, 0) =~= done + gaps_from(b, fns, e as int));
            }
            p = e;
        }
    }
    proof { assert(done =~= gaps_from(b, fns, 0)); }
    let client = client_only();
    let mut out: Vec<BoundaryViolation> = Vec::new();
    let mut g: usize = 0;
    let ghost all = gaps_from(b, fns, 0);
    while g < gaps.len()
        invariant
            b == src@,
            src@ == source.spec_bytes(),
            n == b.len(),
            client@ == client_only_list(),
            all == done,
            gaps@.len() == done.len(),
            forall|j: int| 0 <= j < done.len() ==> (#[trigger] gaps@[j]).0 == done[j].0 && gaps@[j].1 == done[j].1,
            forall|j: int| 0 <= j < done.len() ==> 0 <= (#[trigger] done[j]).0 <= done[j].1 <= n,
            g <= gaps@.len(),
            out@.len() == gap_findings(b, all.take(g as int)).len(),
            forall|j: int| 0 <= j < out@.len() ==> violation_is(#[trigger] out@[j], b, gap_findings(b, all.take(g as int))[j]),
        decreases gaps@.len() - g,
    {
        let (gs, ge) = gaps[g];
        proof {
            assert(gaps@[g as int].0 == done[g as int].0);
            assert(0 <= done[g as int].0 <= done[g as int].1 <= n);
        }
        let ghost before = out@;
        let ghost prev = gap_findings(b, all.take(g as int));
        scan_body(src, gs, ge, &client, "top-level", &None, ViolationKind::TopLevelForbidden, &mut out);
        proof {
            assert(all.take(g + 1).drop_last() =~= all.take(g as int));
            let now = gap_findings(b, all.take(g + 1));
            let gf = body_findings(b, gs as int, ge as int, client_only_list(), "top-level"@, None, ViolationKind::TopLevelForbidden);
            assert(all.take(g + 1).last() == (gs as int, ge as int));
            assert(opt_view(None) == None::<Seq<char>>);
            assert(now =~= prev + gf);
            assert forall|j: int| 0 <= j < out@.len() implies violation_is(#[trigger] out@[j], b, now[j]) by {
                if j < prev.len() {
                    assert(out@[j] == before[j]);
                } else {
                    assert(violation_is(out@[before.len() + (j - prev.len())], b, gf[j - prev.len()]));
                }
            }
        }
        g += 1;
    }
    proof { assert(all.take(gaps@.len() as int) =~= all); }
    out
}

proof fn lemma_scan_hits_within(b: Seq<u8>, i: int, pats: Seq<ApiPattern>)
    requires
        0 <= i,
    ensures
        forall|j: int| 0 <= j < scan_hits(b, i, pats).len() ==> i <= (#[trigger] scan_hits(b, i, pats)[j]).0 < b.len(),
    decreases b.len() - i,
{
    if i < b.len() {
        if b[i] == 0x22 {
            lemma_string_end(b, i + 1);
            lemma_scan_hits_within(b, string_end(b, i + 1), pats);
            assert(scan_hits(b, i, pats) == scan_hits(b, string_end(b, i + 1), pats));
        } else if b.len() - i > 1 && b[i] == 0x2F && b[i + 1] == 0x2F {
            lemma_line_comment_end(b, i + 2);
            lemma_scan_hits_within(b, line_comment_end(b, i + 2), pats);
            assert(scan_hits(b, i, pats) == scan_hits(b, line_comment_end(b, i + 2), pats));
        } else if b.len() - i > 1 && b[i] == 0x2F && b[i + 1] == 0x2A {
            lemma_block_comment_end(b, i + 2);
            lemma_scan_hits_within(b, block_comment_end(b, i + 2), pats);
            assert(scan_hits(b, i, pats) == scan_hits(b, block_comment_end(b, i + 2), pats));
        } else if first_match(b, i, pats, 0) < pats.len() {
            lemma_first_match(b, i, pats, 0);
            let k = first_match(b, i, pats, 0);
            let rest = scan_hits(b, i + pats[k].text.spec_bytes().len(), pats);
            lemma_scan_hits_within(b, i + pats[k].text.spec_bytes().len(), pats);
            assert forall|j: int| 0 <= j < scan_hits(b, i, pats).len() implies i <= (#[trigger] scan_hits(b, i, pats)[j]).0 < b.len() by {
                if j > 0 {
                    assert(scan_hits(b, i, pats)[j] == rest[j - 1]);
                }
            }
        } else {
            lemma_scan_hits_within(b, i + 1, pats);
            assert(scan_hits(b, i, pats) == scan_hits(b, i + 1, pats));
        }
    }
}

proof fn lemma_gaps_uncovered(b: Seq<u8>, fns: Seq<RsxFunction>, p: int)
    requires
        0 <= p,
    ensures
        forall|j: int| 0 <= j < gaps_from(b, fns, p).len() ==> {
            let g = #[trigger] gaps_from(b, fns, p)[j];
            &&& p <= g.0 <= g.1 <= b.len()
            &&& forall|q: int| g.0 <= q < g.1 ==> !covered(b, fns, q)
        },
    decreases b.len() - p,
{
    if p < b.len() {
        if covered(b, fns, p) {
            lemma_gaps_uncovered(b, fns, p + 1);
            assert(gaps_from(b, fns, p) == gaps_from(b, fns, p + 1));
        } else {
            lemma_run_end(b, fns, p + 1);
            lemma_run_end(b, fns, p);
            let e = run_end(b, fns, p);
            lemma_gaps_uncovered(b, fns, e);
            let rest = gaps_from(b, fns, e);
            assert forall|j: int| 0 <= j < gaps_from(b, fns, p).len() implies {
                let g = #[trigger] gaps_from(b, fns, p)[j];
                &&& p <= g.0 <= g.1 <= b.len()
                &&& forall|q: int| g.0 <= q < g.1 ==> !covered(b, fns, q)
            } by {
                if j > 0 {
                    assert(gaps_from(b, fns, p)[j] == rest[j - 1]);
                } else {
                    assert(gaps_from(b, fns, p)[j] == (p, e));
                }
            }
        }
    }
}

proof fn lemma_gap_findings_uncovered(src: Seq<u8>, fns: Seq<RsxFunction>, gaps: Seq<(int, int)>)
    requires
        forall|j: int| 0 <= j < gaps.len() ==> {
            let g = #[trigger] gaps[j];
            &&& 0 <= g.0 <= g.1 <= src.len()
            &&& forall|q: int| g.0 <= q < g.1 ==> !covered(src, fns, q)
        },
    ensures
        forall|j: int| 0 <= j < gap_findings(src, gaps).len() ==> !covered(src, fns, (#[trigger] gap_findings(src, gaps)[j]).0),
    decreases gaps.len(),
{
    if gaps.len() > 0 {
        let init = gaps.drop_last();
        assert forall|j: int| 0 <= j < init.len() implies {
            let g = #[trigger] init[j];
            &&& 0 <= g.0 <= g.1 <= src.len()
            &&& forall|q: int| g.0 <= q < g.1 ==> !covered(src, fns, q)
        } by {
            assert(init[j] == gaps[j]);
        }
        lemma_gap_findings_uncovered(src, fns, init);
        let g = gaps.last();
        assert(g == gaps[gaps.len() - 1]);
        let sub = src.subrange(g.0, g.1);
        lemma_scan_hits_within(sub, 0, client_only_list());
        let prev = gap_findings(src, init);
        let last = body_findings(src, g.0, g.1, client_only_list(), "top-level"@, None, ViolationKind::TopLevelForbidden);
        assert forall|j: int| 0 <= j < gap_findings(src, gaps).len() implies !covered(src, fns, (#[trigger] gap_findings(src, gaps)[j]).0) by {
            if j < prev.len() {
                assert(gap_findings(src, gaps)[j] == prev[j]);
            } else {
                let h = scan_hits(sub, 0, client_only_list())[j - prev.len()];
                assert(gap_findings(src, gaps)[j] == last[j - prev.len()]);
                assert(0 <= h.0 < sub.len());
            }
        }
    }
}

/// Top-level validation reports nothing inside a function declaration: every
/// finding of `validate_top_level` lies outside all of them.
pub proof fn law_top_level_findings_outside_functions(src: Seq<u8>, fns: Seq<RsxFunction>)
    ensures
        forall|j: int| 0 <= j < gap_findings(src, gaps_from(src, fns, 0)).len()
            ==> !covered(src, fns, (#[trigger] gap_findings(src, gaps_from(src, fns, 0))[j]).0),
{
    lemma_gaps_uncovered(src, fns, 0);
    lemma_gap_findings_uncovered(src, fns, gaps_from(src, fns, 0));
}

} // verus!
