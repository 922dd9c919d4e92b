//! File-based routes of a web app:
//! - `app/page.volki` is the page at `/`, `app/about/page.volki` the page at `/about`;
//! - `app/not_found.volki` is the 404 handler;
//! - `app/api/tables/route.volki` (or `route.rs`) is the API route `/api/tables`,
//!   with a handler for each `pub fn get(`/`post(`/... it defines;
//! - other `.volki`/`.rs` files are utility modules.
//!
//! Walking the directories is left to the caller; this module decides what the
//! files found mean and generates the module sources.

use vstd::prelude::*;
use vstd::string::StringSliceAdditionalSpecFns;
use crate::text::{push_str, chars_of, string_of, contains, occurs_in, str_eq};

verus! {

/// The kind of a discovered route.
#[derive(Debug, Clone, Copy, PartialEq, Eq, Structural)]
pub enum RouteKind {
    /// A page (`page.volki` or `page.rs`), rendered with `HtmlDocument`.
    Page,
    /// A 404 handler (`not_found.volki` or `not_found.rs`).
    NotFound,
    /// An API route (`route.volki` or `route.rs`) with per-method handlers.
    Api,
}

/// A route discovered from the file system.
#[derive(Debug)]
pub struct DiscoveredRoute {
    pub kind: RouteKind,
    pub url_path: String,
    pub mod_path: String,
    pub methods: Vec<String>,
    pub has_metadata: bool,
}

/// A client asset of `public/wasm/` embedded in the binary.
#[derive(Debug)]
pub struct WasmAsset {
    pub filename: String,
    pub const_name: String,
    pub fn_name: String,
    pub is_wasm: bool,
}

// ── Paths ──────────────────────────────────────────────────────────────

/// `a` joined with the relative path `b`.
pub open spec fn path_join(a: Seq<char>, b: Seq<char>) -> Seq<char> {
    if a.len() == 0 {
        b
    } else if a.last() == '/' {
        a + b
    } else {
        a + "/"@ + b
    }
}

/// Joins the relative path `b` to `a`.
pub fn join_path(a: &str, b: &str) -> (r: String)
    ensures
        r@ == path_join(a@, b@),
{
    let cs = chars_of(a);
    let mut out = string_of(&cs, 0, cs.len());
    proof { assert(cs@.subrange(0, cs@.len() as int) =~= a@); }
    if cs.len() > 0 && cs[cs.len() - 1] != '/' {
        push_str(&mut out, "/");
    }
    push_str(&mut out, b);
    out
}

/// The path `p` below `prefix` (without the separating `/`), when `p` is
/// `prefix` or lies below it.
pub open spec fn strip_path_prefix(p: Seq<char>, prefix: Seq<char>) -> Option<Seq<char>> {
    if p == prefix {
        Some(Seq::empty())
    } else if p.len() > prefix.len() && p.take(prefix.len() as int) == prefix && p[prefix.len() as int] == '/' {
        Some(p.skip(prefix.len() as int + 1))
    } else {
        None
    }
}

fn strip_prefix(p: &str, prefix: &str) -> (r: Option<String>)
    ensures
        match strip_path_prefix(p@, prefix@) {
            None => r is None,
            Some(rel) => r matches Some(s) && s@ == rel,
        },
{
    let pc = chars_of(p);
    let qc = chars_of(prefix);
    if pc.len() < qc.len() {
        proof { assert(p@ != prefix@ || p@.len() == prefix@.len()); }
        return None;
    }
    let mut k: usize = 0;
    while k < qc.len()
        invariant
            qc@.len() <= pc@.len(),
            pc@ == p@,
            qc@ == prefix@,
            k <= qc@.len(),
            forall|j: int| 0 <= j < k ==> pc@[j] == qc@[j],
        decreases qc@.len() - k,
    {
        if pc[k] != qc[k] {
            proof {
                assert(p@.take(prefix@.len() as int)[k as int] != prefix@[k as int]);
                assert(p@ != prefix@);
            }
            return None;
        }
        k += 1;
    }
    proof { assert(p@.take(prefix@.len() as int) =~= prefix@); }
    if pc.len() == qc.len() {
        proof { assert(p@ =~= prefix@); }
        return Some(String::new());
    }
    if pc[qc.len()] != '/' {
        return None;
    }
    let rel = string_of(&pc, qc.len() + 1, pc.len());
    proof { assert(rel@ =~= p@.skip(prefix@.len() as int + 1)); }
    Some(rel)
}

/// The URL path of a route directory: below `root/app`, with a leading `/`.
pub open spec fn url_of(dir: Seq<char>, root: Seq<char>) -> Seq<char> {
    match strip_path_prefix(dir, path_join(root, "app"@)) {
        Some(rel) => "/"@ + rel,
        None => "/"@,
    }
}

/// The URL path of a route directory, relative to `root/app`.
pub fn dir_to_url(dir: &str, root: &str) -> (r: String)
    ensures
        r@ == url_of(dir@, root@),
{
    let app = join_path(root, "app");
    let mut url = String::new();
    push_str(&mut url, "/");
    match strip_prefix(dir, app.as_str()) {
        Some(rel) => {
            push_str(&mut url, rel.as_str());
        },
        None => {},
    }
    proof {
        match strip_path_prefix(dir@, path_join(root@, "app"@)) {
            Some(rel) => {},
            None => { assert(url@ =~= "/"@); },
        }
    }
    url
}

/// `s` split at each `sep` (at least one piece, maybe empty).
pub open spec fn split_all(s: Seq<char>, sep: char) -> Seq<Seq<char>>
    decreases s.len(),
{
    if s.len() == 0 {
        seq![Seq::empty()]
    } else {
        let v = split_all(s.drop_last(), sep);
        if s.last() == sep {
            v.push(Seq::empty())
        } else {
            v.update(v.len() - 1, v.last().push(s.last()))
        }
    }
}

proof fn lemma_split_all_len(s: Seq<char>, sep: char)
    ensures
        split_all(s, sep).len() >= 1,
    decreases s.len(),
{
    if s.len() > 0 {
        lemma_split_all_len(s.drop_last(), sep);
    }
}

/// The non-empty pieces of `v`, joined with `glue`.
pub open spec fn joined_nonempty(v: Seq<Seq<char>>, glue: Seq<char>) -> Seq<char>
    decreases v.len(),
{
    if v.len() == 0 {
        Seq::empty()
    } else {
        let p = joined_nonempty(v.drop_last(), glue);
        let x = v.last();
        if x.len() == 0 {
            p
        } else if p.len() == 0 {
            x
        } else {
            p + glue + x
        }
    }
}

/// The Rust module path of a directory: its path below `root`, with `::` for `/`.
pub open spec fn module_of(dir: Seq<char>, root: Seq<char>) -> Seq<char> {
    match strip_path_prefix(dir, root) {
        Some(rel) => joined_nonempty(split_all(rel, '/'), "::"@),
        None => Seq::empty(),
    }
}

/// Joins the non-empty `/`-separated pieces of `rel` with `::`.
fn slash_to_module(rel: &str) -> (r: String)
    ensures
        r@ == joined_nonempty(split_all(rel@, '/'), "::"@),
{
    let cs = chars_of(rel);
    let mut out = String::new();
    let mut cur = String::new();
    let mut i: usize = 0;
    while i < cs.len()
        invariant
            cs@ == rel@,
            i <= cs@.len(),
            split_all(cs@.take(i as int), '/').len() >= 1,
            out@ == joined_nonempty(split_all(cs@.take(i as int), '/').drop_last(), "::"@),
            cur@ == split_all(cs@.take(i as int), '/').last(),
        decreases cs@.len() - i,
    {
        let c = cs[i];
        let ghost v = split_all(cs@.take(i as int), '/');
        proof {
            assert(cs@.take(i + 1).drop_last() =~= cs@.take(i as int));
            lemma_split_all_len(cs@.take(i + 1), '/');
        }
        if c == '/' {
            if !cur.as_str().is_empty() {
                if !out.as_str().is_empty() {
                    push_str(&mut out, "::");
                }
                push_str(&mut out, cur.as_str());
            }
            cur = String::new();
            proof {
                assert(split_all(cs@.take(i + 1), '/') == v.push(Seq::empty()));
                assert(v.push(Seq::<char>::empty()).drop_last() =~= v);
            }
        } else {
            cur.push(c);
            proof {
                let w = split_all(cs@.take(i + 1), '/');
                assert(w == v.update(v.len() - 1, v.last().push(c)));
                assert(w.drop_last() =~= v.drop_last());
            }
        }
        i += 1;
    }
    proof {
        assert(cs@.take(cs@.len() as int) =~= rel@);
        let v = split_all(rel@, '/');
        assert(v.drop_last().push(v.last()) =~= v);
    }
    if !cur.as_str().is_empty() {
        if !out.as_str().is_empty() {
            push_str(&mut out, "::");
        }
        push_str(&mut out, cur.as_str());
    }
    proof {
        let v = split_all(rel@, '/');
        assert(joined_nonempty(v, "::"@) == {
            let p = joined_nonempty(v.drop_last(), "::"@);
            let x = v.last();
            if x.len() == 0 { p } else if p.len() == 0 { x } else { p + "::"@ + x }
        }) by {
            assert(v.drop_last().push(v.last()) =~= v);
        }
    }
    out
}

/// The Rust module path of a directory relative to `root`.
pub fn dir_to_module(dir: &str, root: &str) -> (r: String)
    ensures
        r@ == module_of(dir@, root@),
{
    match strip_prefix(dir, root) {
        Some(rel) => slash_to_module(rel.as_str()),
        None => String::new(),
    }
}

/// Adds `s` to `v` unless an equal string is already there.
pub fn add_unique(v: &mut Vec<String>, s: String)
    ensures
        (exists|k: int| 0 <= k < old(v)@.len() && (#[trigger] old(v)@[k])@ == s@) ==> final(v)@ == old(v)@,
        !(exists|k: int| 0 <= k < old(v)@.len() && (#[trigger] old(v)@[k])@ == s@) ==> final(v)@ == old(v)@.push(s),
{
    let mut k: usize = 0;
    while k < v.len()
        invariant
            v@ == old(v)@,
            k <= v@.len(),
            forall|j: int| 0 <= j < k ==> (#[trigger] v@[j])@ != s@,
        decreases v@.len() - k,
    {
        if str_eq(v[k].as_str(), s.as_str()) {
            return;
        }
        k += 1;
    }
    v.push(s);
}


// ── Route discovery ────────────────────────────────────────────────────

/// The HTTP methods an API route may handle, in order.
pub open spec fn http_methods() -> Seq<Seq<char>> {
    seq!["get"@, "post"@, "put"@, "delete"@, "patch"@, "head"@]
}

/// The methods of `ms` for which `src` defines `pub fn <method>(`, in order.
pub open spec fn defined_methods(src: Seq<char>, ms: Seq<Seq<char>>) -> Seq<Seq<char>>
    decreases ms.len(),
{
    if ms.len() == 0 {
        Seq::empty()
    } else {
        let p = defined_methods(src, ms.drop_last());
        if occurs_in(src, "pub fn "@ + ms.last() + "("@) { p.push(ms.last()) } else { p }
    }
}

/// A method is listed exactly when it is one of `ms` and `src` defines its handler;
/// distinct methods stay distinct.
pub proof fn lemma_defined_methods(src: Seq<char>, ms: Seq<Seq<char>>)
    ensures
        forall|m: Seq<char>| #[trigger] defined_methods(src, ms).contains(m)
            <==> ms.contains(m) && occurs_in(src, "pub fn "@ + m + "("@),
        ms.no_duplicates() ==> defined_methods(src, ms).no_duplicates(),
    decreases ms.len(),
{
    if ms.len() > 0 {
        let d = ms.drop_last();
        lemma_defined_methods(src, d);
        let p = defined_methods(src, d);
        assert forall|m: Seq<char>| #[trigger] defined_methods(src, ms).contains(m)
            <==> ms.contains(m) && occurs_in(src, "pub fn "@ + m + "("@) by {
            if ms.contains(m) {
                let k = choose|k: int| 0 <= k < ms.len() && ms[k] == m;
                if k < ms.len() - 1 {
                    assert(d[k] == m);
                }
            }
            if d.contains(m) {
                let k = choose|k: int| 0 <= k < d.len() && d[k] == m;
                assert(ms[k] == m);
            }
            if occurs_in(src, "pub fn "@ + ms.last() + "("@) {
                assert(defined_methods(src, ms) == p.push(ms.last()));
                if p.push(ms.last()).contains(m) {
                    let k = choose|k: int| 0 <= k < p.len() + 1 && p.push(ms.last())[k] == m;
                    if k < p.len() {
                        assert(p[k] == m);
                    }
                }
                if p.contains(m) {
                    let k = choose|k: int| 0 <= k < p.len() && p[k] == m;
                    assert(p.push(ms.last())[k] == m);
                }
                if m == ms.last() {
                    assert(p.push(ms.last())[p.len() as int] == m);
                }
            }
        }
        if ms.no_duplicates() {
            assert(d.no_duplicates()) by {
                assert forall|a: int, b: int| 0 <= a < b < d.len() implies d[a] != d[b] by {
                    assert(d[a] == ms[a] && d[b] == ms[b]);
                }
            }
            if occurs_in(src, "pub fn "@ + ms.last() + "("@) {
                assert(!d.contains(ms.last())) by {
                    if d.contains(ms.last()) {
                        let k = choose|k: int| 0 <= k < d.len() && d[k] == ms.last();
                        assert(ms[k] == ms[ms.len() - 1]);
                    }
                }
                assert(!p.contains(ms.last()));
                let q = p.push(ms.last());
                assert forall|a: int, b: int| 0 <= a < b < q.len() implies q[a] != q[b] by {
                    if b == p.len() {
                        assert(q[a] == p[a]);
                        assert(p.contains(p[a]));
                    } else {
                        assert(q[a] == p[a] && q[b] == p[b]);
                    }
                }
            }
        }
    }
}

/// What an API route handles: `api_methods` lists no method twice, and each of
/// GET, POST, PUT, DELETE, PATCH and HEAD (lower case) is listed exactly when the
/// source defines `pub fn <method>(`; nothing else is listed.
pub proof fn law_api_methods(src: Seq<char>)
    ensures
        defined_methods(src, http_methods()).no_duplicates(),
        forall|m: Seq<char>| (m == "get"@ || m == "post"@ || m == "put"@ || m == "delete"@ || m == "patch"@ || m == "head"@)
            ==> (#[trigger] defined_methods(src, http_methods()).contains(m) <==> occurs_in(src, "pub fn "@ + m + "("@)),
        forall|m: Seq<char>| #[trigger] defined_methods(src, http_methods()).contains(m)
            ==> (m == "get"@ || m == "post"@ || m == "put"@ || m == "delete"@ || m == "patch"@ || m == "head"@),
{
    reveal_strlit("get");
    reveal_strlit("post");
    reveal_strlit("put");
    reveal_strlit("delete");
    reveal_strlit("patch");
    reveal_strlit("head");
    let ms = http_methods();
    lemma_defined_methods(src, ms);
    assert(ms[0] == "get"@ && ms[1] == "post"@ && ms[2] == "put"@ && ms[3] == "delete"@ && ms[4] == "patch"@ && ms[5] == "head"@);
    assert(ms.no_duplicates()) by {
        assert forall|a: int, b: int| 0 <= a < b < ms.len() implies ms[a] != ms[b] by {
            assert(ms[a].len() != ms[b].len() || ms[a][0] != ms[b][0] || ms[a][1] != ms[b][1]);
        }
    }
    assert forall|m: Seq<char>| (m == "get"@ || m == "post"@ || m == "put"@ || m == "delete"@ || m == "patch"@ || m == "head"@)
        implies ms.contains(m) by {
        if m == "get"@ { assert(ms[0] == m); }
        if m == "post"@ { assert(ms[1] == m); }
        if m == "put"@ { assert(ms[2] == m); }
        if m == "delete"@ { assert(ms[3] == m); }
        if m == "patch"@ { assert(ms[4] == m); }
        if m == "head"@ { assert(ms[5] == m); }
    }
}

/// The texts of a sequence of strings.
pub open spec fn texts(v: Seq<String>) -> Seq<Seq<char>> {
    v.map_values(|s: String| s@)
}

fn check_method(source: &str, m: &str, out: &mut Vec<String>)
    ensures
        texts(final(out)@) == if occurs_in(source@, "pub fn "@ + m@ + "("@) { texts(old(out)@).push(m@) } else { texts(old(out)@) },
{
    let mut pattern = String::new();
    push_str(&mut pattern, "pub fn ");
    push_str(&mut pattern, m);
    push_str(&mut pattern, "(");
    if contains(source, pattern.as_str()) {
        let mut name = String::new();
        push_str(&mut name, m);
        out.push(name);
        proof { assert(texts(out@) =~= texts(old(out)@).push(m@)); }
    }
}

/// The `k`-th HTTP method.
fn http_method(k: usize) -> (m: &'static str)
    requires
        k < 6,
    ensures
        m@ == http_methods()[k as int],
{
    match k {
        0 => "get",
        1 => "post",
        2 => "put",
        3 => "delete",
        4 => "patch",
        _ => "head",
    }
}

/// The HTTP methods that an API route source defines a handler for.
pub fn api_methods(source: &str) -> (r: Vec<String>)
    ensures
        texts(r@) == defined_methods(source@, http_methods()),
{
    let mut out: Vec<String> = Vec::new();
    let mut k: usize = 0;
    proof { assert(texts(out@) =~= defined_methods(source@, http_methods().take(0))); }
    while k < 6
        invariant
            k <= 6,
            http_methods().len() == 6,
            texts(out@) == defined_methods(source@, http_methods().take(k as int)),
        decreases 6 - k,
    {
        proof { assert(http_methods().take(k + 1).drop_last() =~= http_methods().take(k as int)); }
        check_method(source, http_method(k), &mut out);
        k += 1;
    }
    proof { assert(http_methods().take(6) =~= http_methods()); }
    out
}

/// A route as plain values: kind, URL path, module path, methods, metadata.
pub type RouteView = (RouteKind, Seq<char>, Seq<char>, Seq<Seq<char>>, bool);

/// The plain values of a route.
pub open spec fn route_view(r: DiscoveredRoute) -> RouteView {
    (r.kind, r.url_path@, r.mod_path@, texts(r.methods@), r.has_metadata)
}

/// The routes of one directory: its page (when `page` holds the page's source),
/// its 404 handler, and its API route (when `route` holds the route's source
/// and it defines at least one method handler).
pub open spec fn dir_routes(dir: Seq<char>, root: Seq<char>, page: Option<Seq<char>>, not_found: bool, route: Option<Seq<char>>) -> Seq<RouteView> {
    let url = url_of(dir, root);
    let m = module_of(dir, root);
    let pages = match page {
        Some(src) => seq![(RouteKind::Page, url, m + "::page"@, Seq::<Seq<char>>::empty(), occurs_in(src, "pub fn metadata"@))],
        None => Seq::empty(),
    };
    let nfs = if not_found {
        seq![(RouteKind::NotFound, Seq::<char>::empty(), m + "::not_found"@, Seq::<Seq<char>>::empty(), false)]
    } else {
        Seq::empty()
    };
    let apis = match route {
        Some(src) => if defined_methods(src, http_methods()).len() > 0 {
            seq![(RouteKind::Api, url, m + "::route"@, defined_methods(src, http_methods()), false)]
        } else {
            Seq::empty()
        },
        None => Seq::empty(),
    };
    pages + nfs + apis
}

/// The plain values of an optional `&str`.
pub open spec fn opt_str(s: Option<&str>) -> Option<Seq<char>> {
    match s {
        Some(t) => Some(t@),
        None => None,
    }
}

/// The routes that the files of the directory `dir` define: `page_source` is
/// the source of its page file (if it has one), `has_not_found` tells whether
/// it has a 404 handler, `route_source` is the source of its API route file.
pub fn routes_in_dir(
    dir: &str,
    root: &str,
    page_source: Option<&str>,
    has_not_found: bool,
    route_source: Option<&str>,
) -> (r: Vec<DiscoveredRoute>)
    ensures
        r@.map_values(|x: DiscoveredRoute| route_view(x)) == dir_routes(dir@, root@, opt_str(page_source), has_not_found, opt_str(route_source)),
{
    let mut out: Vec<DiscoveredRoute> = Vec::new();
    match page_source {
        Some(src) => {
            let url = dir_to_url(dir, root);
            let mut module = dir_to_module(dir, root);
            push_str(&mut module, "::page");
            let has_metadata = contains(src, "pub fn metadata");
            out.push(DiscoveredRoute { kind: RouteKind::Page, url_path: url, mod_path: module, methods: Vec::new(), has_metadata });
        },
        None => {},
    }
    let ghost after_pages = out@;
    if has_not_found {
        let mut module = dir_to_module(dir, root);
        push_str(&mut module, "::not_found");
        out.push(DiscoveredRoute { kind: RouteKind::NotFound, url_path: String::new(), mod_path: module, methods: Vec::new(), has_metadata: false });
    }
    let ghost after_nf = out@;
    match route_source {
        Some(src) => {
            let methods = api_methods(src);
            if methods.len() > 0 {
                let url = dir_to_url(dir, root);
                let mut module = dir_to_module(dir, root);
                push_str(&mut module, "::route");
                out.push(DiscoveredRoute { kind: RouteKind::Api, url_path: url, mod_path: module, methods, has_metadata: false });
            }
        },
        None => {},
    }
    proof {
        let v = out@.map_values(|x: DiscoveredRoute| route_view(x));
        let want = dir_routes(dir@, root@, opt_str(page_source), has_not_found, opt_str(route_source));
        assert(texts(Seq::<String>::empty()) =~= Seq::<Seq<char>>::empty());
        assert(v =~= want);
    }
    out
}

// ── Module files ───────────────────────────────────────────────────────

/// The index of the last `.` in `s`, or -1.
pub open spec fn last_dot(s: Seq<char>) -> int
    decreases s.len(),
{
    if s.len() == 0 {
        -1
    } else if s.last() == '.' {
        s.len() - 1
    } else {
        last_dot(s.drop_last())
    }
}

/// The extension of a file name: after its last `.`, unless that `.` starts the name.
pub open spec fn file_extension(s: Seq<char>) -> Option<Seq<char>> {
    if last_dot(s) <= 0 { None } else { Some(s.skip(last_dot(s) + 1)) }
}

/// The stem of a file name: before its last `.`, unless that `.` starts the name.
pub open spec fn file_stem(s: Seq<char>) -> Seq<char> {
    if last_dot(s) <= 0 { s } else { s.take(last_dot(s)) }
}

proof fn lemma_last_dot(s: Seq<char>)
    ensures
        -1 <= last_dot(s) < s.len(),
        last_dot(s) >= 0 ==> s[last_dot(s)] == '.',
        forall|k: int| last_dot(s) < k < s.len() ==> s[k] != '.',
    decreases s.len(),
{
    if s.len() > 0 && s.last() != '.' {
        lemma_last_dot(s.drop_last());
        assert forall|k: int| last_dot(s) < k < s.len() implies s[k] != '.' by {
            if k < s.len() - 1 {
                assert(s[k] == s.drop_last()[k]);
            }
        }
    }
}

/// The stem and extension of a file name.
pub fn split_file_name(name: &str) -> (r: (String, Option<String>))
    ensures
        r.0@ == file_stem(name@),
        opt_view(r.1) == file_extension(name@),
{
    let cs = chars_of(name);
    let n = cs.len();
    let mut k = n;
    proof { assert(cs@.take(n as int) =~= name@); }
    while k > 0 && cs[k - 1] != '.'
        invariant
            cs@ == name@,
            k <= n == cs@.len(),
            last_dot(name@) == last_dot(cs@.take(k as int)),
        decreases k,
    {
        proof { assert(cs@.take(k as int).drop_last() =~= cs@.take(k - 1)); }
        k -= 1;
    }
    proof {
        assert(cs@.take(n as int) =~= name@);
        if k > 0 {
            assert(last_dot(cs@.take(k as int)) == k - 1);
        }
    }
    if k <= 1 {
        let stem = string_of(&cs, 0, n);
        proof { assert(cs@.subrange(0, n as int) =~= name@); }
        (stem, None)
    } else {
        let stem = string_of(&cs, 0, k - 1);
        let ext = string_of(&cs, k, n);
        proof {
            assert(stem@ =~= name@.take(k - 1));
            assert(ext@ =~= name@.skip(k as int));
        }
        (stem, Some(ext))
    }
}

/// The texts of an optional `String`.
pub open spec fn opt_view(s: Option<String>) -> Option<Seq<char>> {
    match s {
        Some(t) => Some(t@),
        None => None,
    }
}

/// The module that a directory entry declares, if any: a directory not starting
/// with `.` and not `public`, or a `.rs`/`.volki` file other than `mod.rs` (by
/// its stem).
pub open spec fn entry_module(name: Seq<char>, is_dir: bool, is_file: bool) -> Option<Seq<char>> {
    if is_dir {
        if (name.len() > 0 && name[0] == '.') || name == "public"@ { None } else { Some(name) }
    } else if is_file {
        if name == "mod.rs"@ {
            None
        } else if file_extension(name) == Some("rs"@) || file_extension(name) == Some("volki"@) {
            Some(file_stem(name))
        } else {
            None
        }
    } else {
        None
    }
}

/// The module that a directory entry declares, if any.
pub fn entry_module_name(name: &str, is_dir: bool, is_file: bool) -> (r: Option<String>)
    ensures
        opt_view(r) == entry_module(name@, is_dir, is_file),
{
    if is_dir {
        let cs = chars_of(name);
        if (cs.len() > 0 && cs[0] == '.') || str_eq(name, "public") {
            return None;
        }
        return Some(string_of(&cs, 0, cs.len()));
    }
    if !is_file || str_eq(name, "mod.rs") {
        return None;
    }
    let (stem, ext) = split_file_name(name);
    match ext {
        Some(e) => {
            if str_eq(e.as_str(), "rs") || str_eq(e.as_str(), "volki") {
                Some(stem)
            } else {
                None
            }
        },
        None => None,
    }
}


/// Lexicographic order of texts, by character value.
pub open spec fn text_lt(a: Seq<char>, b: Seq<char>) -> bool
    decreases a.len(),
{
    if a.len() == 0 {
        b.len() > 0
    } else if b.len() == 0 {
        false
    } else if a[0] != b[0] {
        (a[0] as u32) < (b[0] as u32)
    } else {
        text_lt(a.skip(1), b.skip(1))
    }
}

proof fn lemma_text_lt_irreflexive(a: Seq<char>)
    ensures
        !text_lt(a, a),
    decreases a.len(),
{
    if a.len() > 0 {
        lemma_text_lt_irreflexive(a.skip(1));
    }
}

proof fn lemma_text_lt_transitive(a: Seq<char>, b: Seq<char>, c: Seq<char>)
    requires
        text_lt(a, b),
        text_lt(b, c),
    ensures
        text_lt(a, c),
    decreases a.len(),
{
    if a.len() > 0 && b.len() > 0 && c.len() > 0 && a[0] == b[0] && b[0] == c[0] {
        lemma_text_lt_transitive(a.skip(1), b.skip(1), c.skip(1));
    }
}

proof fn lemma_text_lt_total(a: Seq<char>, b: Seq<char>)
    requires
        a != b,
    ensures
        text_lt(a, b) || text_lt(b, a),
    decreases a.len(),
{
    if a.len() > 0 && b.len() > 0 && a[0] == b[0] {
        if a.skip(1) == b.skip(1) {
            assert(a =~= seq![a[0]] + a.skip(1));
            assert(b =~= seq![b[0]] + b.skip(1));
        }
        lemma_text_lt_total(a.skip(1), b.skip(1));
    } else if a.len() == 0 && b.len() == 0 {
        assert(a =~= b);
    } else if a.len() > 0 && b.len() > 0 {
        vstd::utf8::char_u32_cast(a[0], a[0] as u32);
        vstd::utf8::char_u32_cast(b[0], b[0] as u32);
    }
}

/// Whether `a` comes before `b` (`text_lt`).
pub fn text_less(a: &str, b: &str) -> (r: bool)
    ensures
        r == text_lt(a@, b@),
{
    let ac = chars_of(a);
    let bc = chars_of(b);
    let mut i: usize = 0;
    proof {
        assert(a@.skip(0) =~= a@);
        assert(b@.skip(0) =~= b@);
    }
    while i < ac.len() && i < bc.len() && ac[i] == bc[i]
        invariant
            ac@ == a@,
            bc@ == b@,
            i <= ac@.len(),
            i <= bc@.len(),
            text_lt(a@, b@) == text_lt(a@.skip(i as int), b@.skip(i as int)),
        decreases ac@.len() - i,
    {
        proof {
            assert(a@.skip(i as int).skip(1) =~= a@.skip(i + 1));
            assert(b@.skip(i as int).skip(1) =~= b@.skip(i + 1));
        }
        i += 1;
    }
    proof {
        if i < ac.len() {
            assert(a@.skip(i as int)[0] == ac@[i as int]);
        }
        if i < bc.len() {
            assert(b@.skip(i as int)[0] == bc@[i as int]);
        }
    }
    if i == ac.len() {
        i < bc.len()
    } else if i == bc.len() {
        false
    } else {
        (ac[i] as u32) < (bc[i] as u32)
    }
}

/// Strictly increasing in `text_lt` order.
pub open spec fn strictly_sorted(v: Seq<Seq<char>>) -> bool {
    forall|i: int, j: int| 0 <= i < j < v.len() ==> text_lt(#[trigger] v[i], #[trigger] v[j])
}


proof fn lemma_insert_contains(s: Seq<Seq<char>>, j: int, x: Seq<char>, y: Seq<char>)
    requires
        0 <= j <= s.len(),
    ensures
        s.insert(j, x).contains(y) <==> (y == x || s.contains(y)),
{
    let t = s.insert(j, x);
    if t.contains(y) {
        let w = choose|w: int| 0 <= w < t.len() && #[trigger] t[w] == y;
        if w < j {
            assert(s[w] == y);
        } else if w > j {
            assert(s[w - 1] == y);
        }
    }
    if y == x {
        assert(t[j] == y);
    }
    if s.contains(y) {
        let u = choose|u: int| 0 <= u < s.len() && #[trigger] s[u] == y;
        if u < j {
            assert(t[u] == y);
        } else {
            assert(t[u + 1] == y);
        }
    }
}

proof fn lemma_push_contains(s: Seq<Seq<char>>, x: Seq<char>, y: Seq<char>)
    ensures
        s.push(x).contains(y) <==> (y == x || s.contains(y)),
{
    let t = s.push(x);
    if t.contains(y) {
        let w = choose|w: int| 0 <= w < t.len() && #[trigger] t[w] == y;
        if w < s.len() {
            assert(s[w] == y);
        }
    }
    if y == x {
        assert(t[s.len() as int] == y);
    }
    if s.contains(y) {
        let u = choose|u: int| 0 <= u < s.len() && #[trigger] s[u] == y;
        assert(t[u] == y);
    }
}

/// Sorts distinct texts in increasing order (insertion sort).
fn sort_texts(v: Vec<String>) -> (r: Vec<String>)
    requires
        forall|i: int, j: int| 0 <= i < j < v@.len() ==> (#[trigger] v@[i])@ != (#[trigger] v@[j])@,
    ensures
        strictly_sorted(texts(r@)),
        texts(r@).to_set() == texts(v@).to_set(),
{
    let mut out: Vec<String> = Vec::new();
    let mut k: usize = 0;
    while k < v.len()
        invariant
            k <= v@.len(),
            forall|i: int, j: int| 0 <= i < j < v@.len() ==> (#[trigger] v@[i])@ != (#[trigger] v@[j])@,
            strictly_sorted(texts(out@)),
            texts(out@).to_set() == texts(v@.take(k as int)).to_set(),
        decreases v@.len() - k,
    {
        let x = &v[k];
        let mut j: usize = 0;
        while j < out.len() && !text_less(x.as_str(), out[j].as_str())
            invariant
                j <= out@.len(),
                forall|i: int| 0 <= i < j ==> !text_lt(x@, #[trigger] texts(out@)[i]),
            decreases out@.len() - j,
        {
            j += 1;
        }
        let ghost old_t = texts(out@);
        proof {
            assert(!old_t.contains(x@)) by {
                if old_t.contains(x@) {
                    let w = choose|w: int| 0 <= w < old_t.len() && #[trigger] old_t[w] == x@;
                    assert(texts(v@.take(k as int)).to_set().contains(x@));
                    let tk = texts(v@.take(k as int));
                    let u = choose|u: int| 0 <= u < tk.len() && #[trigger] tk[u] == x@;
                    assert(v@[u]@ == v@[k as int]@);
                }
            }
        }
        out.insert(j, x.clone());
        proof {
            let t = texts(out@);
            assert(t =~= old_t.insert(j as int, x@));
            assert forall|a: int, b: int| 0 <= a < b < t.len() implies text_lt(#[trigger] t[a], #[trigger] t[b]) by {
                if b < j {
                    assert(t[a] == old_t[a] && t[b] == old_t[b]);
                } else if b == j {
                    assert(t[a] == old_t[a]);
                    assert(old_t[a] != x@);
                    lemma_text_lt_total(old_t[a], x@);
                } else if a == j {
                    assert(t[b] == old_t[b - 1]);
                    if b - 1 == j {
                        assert(text_lt(x@, old_t[j as int]));
                    } else {
                        assert(text_lt(x@, old_t[j as int]));
                        assert(text_lt(old_t[j as int], old_t[b - 1]));
                        lemma_text_lt_transitive(x@, old_t[j as int], old_t[b - 1]);
                    }
                } else if a < j {
                    assert(t[a] == old_t[a] && t[b] == old_t[b - 1]);
                } else {
                    assert(t[a] == old_t[a - 1] && t[b] == old_t[b - 1]);
                }
            }
            assert(v@.take(k + 1) =~= v@.take(k as int).push(v@[k as int]));
            let big = texts(v@.take(k + 1));
            let small = texts(v@.take(k as int));
            assert(big =~= small.push(x@));
            assert forall|y: Seq<char>| t.contains(y) <==> big.contains(y) by {
                lemma_insert_contains(old_t, j as int, x@, y);
                lemma_push_contains(small, x@, y);
                assert(old_t.contains(y) == old_t.to_set().contains(y));
                assert(small.contains(y) == small.to_set().contains(y));
            }
            assert(t.to_set() =~= texts(v@.take(k + 1)).to_set());
        }
        k += 1;
    }
    proof { assert(v@.take(v@.len() as int) =~= v@); }
    out
}


/// The first line of a module file written by the compiler.
pub open spec fn mod_header() -> Seq<char> {
    "//! @generated by volki compiler \u{2014} do not edit.\n\n"@
}

/// `pub mod <m>;` for each of `ms`, in order.
pub open spec fn mod_decls(ms: Seq<Seq<char>>) -> Seq<char>
    decreases ms.len(),
{
    if ms.len() == 0 {
        Seq::empty()
    } else {
        mod_decls(ms.drop_last()) + "pub mod "@ + ms.last() + ";\n"@
    }
}

/// The modules that the entries of a directory (name, is a directory, is a
/// file) declare, in order, repeats included.
pub open spec fn entry_modules(entries: Seq<(String, bool, bool)>) -> Seq<Seq<char>>
    decreases entries.len(),
{
    if entries.len() == 0 {
        Seq::empty()
    } else {
        let e = entries.last();
        let rest = entry_modules(entries.drop_last());
        match entry_module(e.0@, e.1, e.2) {
            Some(m) => rest.push(m),
            None => rest,
        }
    }
}

/// The source of a directory's `mod.rs`: the header and a `pub mod` line for
/// each module its entries declare, once each, sorted.
pub fn mod_file_content(entries: &[(String, bool, bool)]) -> (r: String)
    ensures
        exists|ms: Seq<Seq<char>>| strictly_sorted(ms) && ms.to_set() == entry_modules(entries@).to_set()
            && r@ == mod_header() + mod_decls(ms),
{
    let mut names: Vec<String> = Vec::new();
    let mut k: usize = 0;
    while k < entries.len()
        invariant
            k <= entries@.len(),
            forall|i: int, j: int| 0 <= i < j < names@.len() ==> (#[trigger] names@[i])@ != (#[trigger] names@[j])@,
            texts(names@).to_set() == entry_modules(entries@.take(k as int)).to_set(),
        decreases entries@.len() - k,
    {
        proof { assert(entries@.take(k + 1).drop_last() =~= entries@.take(k as int)); }
        let e = &entries[k];
        match entry_module_name(e.0.as_str(), e.1, e.2) {
            Some(m) => {
                let ghost before = names@;
                let ghost mv = m@;
                add_unique(&mut names, m);
                proof {
                    let prev = entry_modules(entries@.take(k as int));
                    let now = entry_modules(entries@.take(k + 1));
                    assert(now == prev.push(mv));
                    if exists|j: int| 0 <= j < before.len() && (#[trigger] before[j])@ == mv {
                        let w = choose|j: int| 0 <= j < before.len() && (#[trigger] before[j])@ == mv;
                        assert(texts(before)[w] == mv);
                        assert(texts(before).to_set().contains(mv));
                        assert(names@ == before);
                        assert(texts(before).to_set() == prev.to_set());
                        assert(prev.to_set().contains(mv));
                        assert(prev.contains(mv));
                        assert forall|y: Seq<char>| now.contains(y) <==> prev.contains(y) by {
                            lemma_push_contains(prev, mv, y);
                        }
                        assert(now.to_set() =~= prev.to_set());
                    } else {
                        assert(texts(names@) =~= texts(before).push(mv));
                        assert(texts(before).to_set() == prev.to_set());
                        assert forall|y: Seq<char>| texts(before).contains(y) <==> prev.contains(y) by {
                            assert(texts(before).to_set().contains(y) == texts(before).contains(y));
                            assert(prev.to_set().contains(y) == prev.contains(y));
                        }
                        assert forall|y: Seq<char>| texts(names@).contains(y) <==> now.contains(y) by {
                            lemma_push_contains(prev, mv, y);
                            lemma_push_contains(texts(before), mv, y);
                        }
                        assert(texts(names@).to_set() =~= now.to_set());
                    }
                    assert(texts(names@).to_set() =~= now.to_set());
                }
            },
            None => {},
        }
        k += 1;
    }
    proof { assert(entries@.take(entries@.len() as int) =~= entries@); }
    let sorted = sort_texts(names);
    let mut out = String::new();
    push_str(&mut out, "//! @generated by volki compiler \u{2014} do not edit.\n\n");
    let mut i: usize = 0;
    while i < sorted.len()
        invariant
            i <= sorted@.len(),
            out@ == mod_header() + mod_decls(texts(sorted@).take(i as int)),
        decreases sorted@.len() - i,
    {
        proof { assert(texts(sorted@).take(i + 1).drop_last() =~= texts(sorted@).take(i as int)); }
        push_str(&mut out, "pub mod ");
        push_str(&mut out, sorted[i].as_str());
        push_str(&mut out, ";\n");
        proof {
            assert(out@ =~= mod_header() + mod_decls(texts(sorted@).take(i + 1)));
        }
        i += 1;
    }
    proof { assert(texts(sorted@).take(sorted@.len() as int) =~= texts(sorted@)); }
    out
}


// ── Embedded client assets ────────────────────────────────────────────

/// A file-name byte in a SCREAMING_SNAKE_CASE constant name.
pub open spec fn const_char(b: u8) -> char {
    if b == 0x2E || b == 0x2D { '_' } else if 0x61 <= b <= 0x7A { (b - 32) as char } else { b as char }
}

/// A file-name byte in a snake_case function name.
pub open spec fn fn_char(b: u8) -> char {
    if b == 0x2E || b == 0x2D { '_' } else if 0x41 <= b <= 0x5A { (b + 32) as char } else { b as char }
}

/// The constant that holds an asset, e.g. `PAGE_GLUE_JS` for `page_glue.js`.
pub open spec fn const_name_of(b: Seq<u8>) -> Seq<char> {
    b.map_values(|x: u8| const_char(x))
}

/// The handler that serves an asset, e.g. `__serve_page_glue_js` for `page_glue.js`.
pub open spec fn fn_name_of(b: Seq<u8>) -> Seq<char> {
    "__serve_"@ + b.map_values(|x: u8| fn_char(x))
}

/// The SCREAMING_SNAKE_CASE constant name for an asset file name.
pub fn filename_to_const(name: &str) -> (r: String)
    ensures
        r@ == const_name_of(name.spec_bytes()),
{
    let b = name.as_bytes();
    let mut out = String::new();
    let mut i: usize = 0;
    while i < b.len()
        invariant
            b@ == name.spec_bytes(),
            i <= b@.len(),
            out@ == const_name_of(b@.take(i as int)),
        decreases b@.len() - i,
    {
        let c = b[i];
        if c == 0x2E || c == 0x2D {
            out.push('_');
        } else if 0x61 <= c && c <= 0x7A {
            out.push((c - 32) as char);
        } else {
            out.push(c as char);
        }
        i += 1;
        proof { assert(out@ =~= const_name_of(b@.take(i as int))); }
    }
    proof { assert(b@.take(b@.len() as int) =~= b@); }
    out
}

/// The snake_case handler name for an asset file name.
pub fn filename_to_fn(name: &str) -> (r: String)
    ensures
        r@ == fn_name_of(name.spec_bytes()),
{
    let b = name.as_bytes();
    let mut out = String::new();
    push_str(&mut out, "__serve_");
    let mut i: usize = 0;
    while i < b.len()
        invariant
            b@ == name.spec_bytes(),
            i <= b@.len(),
            out@ == "__serve_"@ + b@.take(i as int).map_values(|x: u8| fn_char(x)),
        decreases b@.len() - i,
    {
        let c = b[i];
        if c == 0x2E || c == 0x2D {
            out.push('_');
        } else if 0x41 <= c && c <= 0x5A {
            out.push((c + 32) as char);
        } else {
            out.push(c as char);
        }
        i += 1;
        proof { assert(out@ =~= "__serve_"@ + b@.take(i as int).map_values(|x: u8| fn_char(x))); }
    }
    proof { assert(b@.take(b@.len() as int) =~= b@); }
    out
}

/// The asset that a file of `public/wasm/` is, if it is one (`.js` or `.wasm`).
pub open spec fn asset_of(name: &str, a: WasmAsset) -> bool {
    &&& a.filename@ == name@
    &&& a.const_name@ == const_name_of(name.spec_bytes())
    &&& a.fn_name@ == fn_name_of(name.spec_bytes())
    &&& a.is_wasm == (file_extension(name@) == Some("wasm"@))
}

/// The embedded asset for a file of `public/wasm/`: `.js` and `.wasm` files are
/// assets, others are not.
pub fn wasm_asset(name: &str) -> (r: Option<WasmAsset>)
    ensures
        r is Some <==> (file_extension(name@) == Some("js"@) || file_extension(name@) == Some("wasm"@)),
        r matches Some(a) ==> asset_of(name, a),
{
    let (_stem, ext) = split_file_name(name);
    let (is_js, is_wasm) = match &ext {
        Some(e) => (str_eq(e.as_str(), "js"), str_eq(e.as_str(), "wasm")),
        None => (false, false),
    };
    if !is_js && !is_wasm {
        return None;
    }
    let cs = chars_of(name);
    let filename = string_of(&cs, 0, cs.len());
    proof { assert(cs@.subrange(0, cs@.len() as int) =~= name@); }
    Some(WasmAsset {
        filename,
        const_name: filename_to_const(name),
        fn_name: filename_to_fn(name),
        is_wasm,
    })
}

// ── The root module ────────────────────────────────────────────────────

/// The constant of one asset.
pub open spec fn asset_const(a: WasmAsset) -> Seq<char> {
    "const "@ + a.const_name@
        + (if a.is_wasm { ": &[u8] = include_bytes!(\"public/wasm/"@ } else { ": &str = include_str!(\"public/wasm/"@ })
        + a.filename@ + "\");\n"@
}

/// The handler that serves one asset.
pub open spec fn asset_handler(a: WasmAsset) -> Seq<char> {
    "fn "@ + a.fn_name@ + "(_req: &Request) -> Response {\n"@
        + "    Response::new(crate::libs::web::http::status::StatusCode::OK)\n"@
        + (if a.is_wasm {
            "        .body_bytes("@ + a.const_name@ + ")\n"@ + "        .header(\"Content-Type\", \"application/wasm\")\n"@
        } else {
            "        .body_bytes("@ + a.const_name@ + ".as_bytes())\n"@
                + "        .header(\"Content-Type\", \"application/javascript; charset=utf-8\")\n"@
        })
        + "        .header(\"Cache-Control\", \"public, max-age=3600\")\n"@ + "}\n\n"@
}

/// The route that serves one asset.
pub open spec fn asset_route(a: WasmAsset) -> Seq<char> {
    "        .api(\"/wasm/"@ + a.filename@ + "\", "@ + a.fn_name@ + ")\n"@
}

/// The registration of a page route (nothing for other kinds).
pub open spec fn page_route(r: DiscoveredRoute) -> Seq<char> {
    if r.kind != RouteKind::Page {
        Seq::empty()
    } else if r.has_metadata {
        "        .page_with_metadata(\""@ + r.url_path@ + "\", "@ + r.mod_path@ + "::page, "@ + r.mod_path@ + "::metadata)\n"@
    } else {
        "        .page(\""@ + r.url_path@ + "\", "@ + r.mod_path@ + "::page)\n"@
    }
}

/// `.method(module::method)` for each method.
pub open spec fn method_calls(m: Seq<char>, methods: Seq<Seq<char>>) -> Seq<char>
    decreases methods.len(),
{
    if methods.len() == 0 {
        Seq::empty()
    } else {
        method_calls(m, methods.drop_last()) + "."@ + methods.last() + "("@ + m + "::"@ + methods.last() + ")"@
    }
}

/// The registration of an API route (nothing for other kinds).
pub open spec fn api_route(r: DiscoveredRoute) -> Seq<char> {
    if r.kind != RouteKind::Api {
        Seq::empty()
    } else {
        "        .file_route(\n"@ + "            \""@ + r.url_path@ + "\",\n"@ + "            FileRoute::new()"@
            + method_calls(r.mod_path@, texts(r.methods@)) + ",\n"@ + "        )\n"@
    }
}

/// The registration of a 404 handler (nothing for other kinds).
pub open spec fn not_found_route(r: DiscoveredRoute) -> Seq<char> {
    if r.kind != RouteKind::NotFound {
        Seq::empty()
    } else {
        "        .not_found_page("@ + r.mod_path@ + "::page)\n"@
    }
}

/// `f` of each asset, concatenated.
pub open spec fn each_asset(v: Seq<WasmAsset>, f: spec_fn(WasmAsset) -> Seq<char>) -> Seq<char>
    decreases v.len(),
{
    if v.len() == 0 { Seq::empty() } else { each_asset(v.drop_last(), f) + f(v.last()) }
}

/// `f` of each route, concatenated.
pub open spec fn each_route(v: Seq<DiscoveredRoute>, f: spec_fn(DiscoveredRoute) -> Seq<char>) -> Seq<char>
    decreases v.len(),
{
    if v.len() == 0 { Seq::empty() } else { each_route(v.drop_last(), f) + f(v.last()) }
}

/// One of the routes is an API route.
pub open spec fn has_api(routes: Seq<DiscoveredRoute>) -> bool {
    exists|k: int| 0 <= k < routes.len() && (#[trigger] routes[k]).kind == RouteKind::Api
}

/// The source of the root module: the module declarations, the imports, the
/// embedded assets with their handlers, and `start`, which registers the
/// public directory, the asset routes, the pages, the API routes and the 404
/// handler, in that order.
pub open spec fn root_mod_text(mod_content: Seq<char>, routes: Seq<DiscoveredRoute>, public_dir: Option<Seq<char>>, assets: Seq<WasmAsset>) -> Seq<char> {
    mod_content + "\nuse crate::libs::web::server::Server;\n"@
        + (if has_api(routes) { "use crate::libs::web::router::file_route::FileRoute;\n"@ } else { Seq::empty() })
        + (if assets.len() > 0 {
            "use crate::libs::web::http::request::Request;\n"@ + "use crate::libs::web::http::response::Response;\n"@ + "\n"@
                + each_asset(assets, |a: WasmAsset| asset_const(a)) + "\n"@ + each_asset(assets, |a: WasmAsset| asset_handler(a))
        } else {
            Seq::empty()
        })
        + "pub fn start(host: &str, port: u16) -> ! {\n"@ + "    Server::new()\n"@ + "        .host(host)\n"@ + "        .port(port)\n"@
        + (match public_dir {
            Some(d) => "        .public_dir(\""@ + d + "\")\n"@,
            None => Seq::empty(),
        })
        + each_asset(assets, |a: WasmAsset| asset_route(a))
        + each_route(routes, |r: DiscoveredRoute| page_route(r))
        + each_route(routes, |r: DiscoveredRoute| api_route(r))
        + each_route(routes, |r: DiscoveredRoute| not_found_route(r))
        + "        .listen()\n"@ + "}\n"@
}

fn push_asset_consts(out: &mut String, assets: &[WasmAsset])
    ensures
        final(out)@ == old(out)@ + each_asset(assets@, |a: WasmAsset| asset_const(a)),
{
    let mut i: usize = 0;
    while i < assets.len()
        invariant
            i <= assets@.len(),
            out@ == old(out)@ + each_asset(assets@.take(i as int), |a: WasmAsset| asset_const(a)),
        decreases assets@.len() - i,
    {
        proof { assert(assets@.take(i + 1).drop_last() =~= assets@.take(i as int)); }
        let a = &assets[i];
        push_str(out, "const ");
        push_str(out, a.const_name.as_str());
        if a.is_wasm {
            push_str(out, ": &[u8] = include_bytes!(\"public/wasm/");
        } else {
            push_str(out, ": &str = include_str!(\"public/wasm/");
        }
        push_str(out, a.filename.as_str());
        push_str(out, "\");\n");
        proof { assert(out@ =~= old(out)@ + each_asset(assets@.take(i + 1), |a: WasmAsset| asset_const(a))); }
        i += 1;
    }
    proof { assert(assets@.take(assets@.len() as int) =~= assets@); }
}

#[verifier::rlimit(40)]
fn push_asset_handlers(out: &mut String, assets: &[WasmAsset])
    ensures
        final(out)@ == old(out)@ + each_asset(assets@, |a: WasmAsset| asset_handler(a)),
{
    let mut i: usize = 0;
    while i < assets.len()
        invariant
            i <= assets@.len(),
            out@ == old(out)@ + each_asset(assets@.take(i as int), |a: WasmAsset| asset_handler(a)),
        decreases assets@.len() - i,
    {
        proof { assert(assets@.take(i + 1).drop_last() =~= assets@.take(i as int)); }
        let a = &assets[i];
        push_str(out, "fn ");
        push_str(out, a.fn_name.as_str());
        push_str(out, "(_req: &Request) -> Response {\n");
        push_str(out, "    Response::new(crate::libs::web::http::status::StatusCode::OK)\n");
        if a.is_wasm {
            push_str(out, "        .body_bytes(");
            push_str(out, a.const_name.as_str());
            push_str(out, ")\n");
            push_str(out, "        .header(\"Content-Type\", \"application/wasm\")\n");
        } else {
            push_str(out, "        .body_bytes(");
            push_str(out, a.const_name.as_str());
            push_str(out, ".as_bytes())\n");
            push_str(out, "        .header(\"Content-Type\", \"application/javascript; charset=utf-8\")\n");
        }
        push_str(out, "        .header(\"Cache-Control\", \"public, max-age=3600\")\n");
        push_str(out, "}\n\n");
        proof { assert(out@ =~= old(out)@ + each_asset(assets@.take(i + 1), |a: WasmAsset| asset_handler(a))); }
        i += 1;
    }
    proof { assert(assets@.take(assets@.len() as int) =~= assets@); }
}

fn push_asset_routes(out: &mut String, assets: &[WasmAsset])
    ensures
        final(out)@ == old(out)@ + each_asset(assets@, |a: WasmAsset| asset_route(a)),
{
    let mut i: usize = 0;
    while i < assets.len()
        invariant
            i <= assets@.len(),
            out@ == old(out)@ + each_asset(assets@.take(i as int), |a: WasmAsset| asset_route(a)),
        decreases assets@.len() - i,
    {
        proof { assert(assets@.take(i + 1).drop_last() =~= assets@.take(i as int)); }
        let a = &assets[i];
        push_str(out, "        .api(\"/wasm/");
        push_str(out, a.filename.as_str());
        push_str(out, "\", ");
        push_str(out, a.fn_name.as_str());
        push_str(out, ")\n");
        proof { assert(out@ =~= old(out)@ + each_asset(assets@.take(i + 1), |a: WasmAsset| asset_route(a))); }
        i += 1;
    }
    proof { assert(assets@.take(assets@.len() as int) =~= assets@); }
}

fn push_page_routes(out: &mut String, routes: &[DiscoveredRoute])
    ensures
        final(out)@ == old(out)@ + each_route(routes@, |r: DiscoveredRoute| page_route(r)),
{
    let mut i: usize = 0;
    while i < routes.len()
        invariant
            i <= routes@.len(),
            out@ == old(out)@ + each_route(routes@.take(i as int), |r: DiscoveredRoute| page_route(r)),
        decreases routes@.len() - i,
    {
        proof { assert(routes@.take(i + 1).drop_last() =~= routes@.take(i as int)); }
        let r = &routes[i];
        if r.kind == RouteKind::Page {
            if r.has_metadata {
                push_str(out, "        .page_with_metadata(\"");
                push_str(out, r.url_path.as_str());
                push_str(out, "\", ");
                push_str(out, r.mod_path.as_str());
                push_str(out, "::page, ");
                push_str(out, r.mod_path.as_str());
                push_str(out, "::metadata)\n");
            } else {
                push_str(out, "        .page(\"");
                push_str(out, r.url_path.as_str());
                push_str(out, "\", ");
                push_str(out, r.mod_path.as_str());
                push_str(out, "::page)\n");
            }
        }
        proof { assert(out@ =~= old(out)@ + each_route(routes@.take(i + 1), |r: DiscoveredRoute| page_route(r))); }
        i += 1;
    }
    proof { assert(routes@.take(routes@.len() as int) =~= routes@); }
}

fn push_api_routes(out: &mut String, routes: &[DiscoveredRoute])
    ensures
        final(out)@ == old(out)@ + each_route(routes@, |r: DiscoveredRoute| api_route(r)),
{
    let mut i: usize = 0;
    while i < routes.len()
        invariant
            i <= routes@.len(),
            out@ == old(out)@ + each_route(routes@.take(i as int), |r: DiscoveredRoute| api_route(r)),
        decreases routes@.len() - i,
    {
        proof { assert(routes@.take(i + 1).drop_last() =~= routes@.take(i as int)); }
        let r = &routes[i];
        if r.kind == RouteKind::Api {
            let ghost start = out@;
            push_str(out, "        .file_route(\n");
            push_str(out, "            \"");
            push_str(out, r.url_path.as_str());
            push_str(out, "\",\n");
            push_str(out, "            FileRoute::new()");
            let ghost before_calls = out@;
            let mut j: usize = 0;
            while j < r.methods.len()
                invariant
                    j <= r.methods@.len(),
                    out@ == before_calls + method_calls(r.mod_path@, texts(r.methods@).take(j as int)),
                decreases r.methods@.len() - j,
            {
                proof { assert(texts(r.methods@).take(j + 1).drop_last() =~= texts(r.methods@).take(j as int)); }
                push_str(out, ".");
                push_str(out, r.methods[j].as_str());
                push_str(out, "(");
                push_str(out, r.mod_path.as_str());
                push_str(out, "::");
                push_str(out, r.methods[j].as_str());
                push_str(out, ")");
                proof { assert(out@ =~= before_calls + method_calls(r.mod_path@, texts(r.methods@).take(j + 1))); }
                j += 1;
            }
            proof { assert(texts(r.methods@).take(r.methods@.len() as int) =~= texts(r.methods@)); }
            push_str(out, ",\n");
            push_str(out, "        )\n");
        }
        proof { assert(out@ =~= old(out)@ + each_route(routes@.take(i + 1), |r: DiscoveredRoute| api_route(r))); }
        i += 1;
    }
    proof { assert(routes@.take(routes@.len() as int) =~= routes@); }
}

fn push_not_found_routes(out: &mut String, routes: &[DiscoveredRoute])
    ensures
        final(out)@ == old(out)@ + each_route(routes@, |r: DiscoveredRoute| not_found_route(r)),
{
    let mut i: usize = 0;
    while i < routes.len()
        invariant
            i <= routes@.len(),
            out@ == old(out)@ + each_route(routes@.take(i as int), |r: DiscoveredRoute| not_found_route(r)),
        decreases routes@.len() - i,
    {
        proof { assert(routes@.take(i + 1).drop_last() =~= routes@.take(i as int)); }
        let r = &routes[i];
        if r.kind == RouteKind::NotFound {
            push_str(out, "        .not_found_page(");
            push_str(out, r.mod_path.as_str());
            push_str(out, "::page)\n");
        }
        proof { assert(out@ =~= old(out)@ + each_route(routes@.take(i + 1), |r: DiscoveredRoute| not_found_route(r))); }
        i += 1;
    }
    proof { assert(routes@.take(routes@.len() as int) =~= routes@); }
}

/// The source of the root `mod.rs` (`root_mod_text`), from the module file of
/// the app root (`mod_content`), the discovered routes, the public directory
/// and the client assets found in `public/wasm/`.
pub fn root_mod_source(mod_content: &str, routes: &[DiscoveredRoute], public_dir: Option<&str>, assets: &[WasmAsset]) -> (r: String)
    ensures
        r@ == root_mod_text(mod_content@, routes@, opt_str(public_dir), assets@),
{
    let mut out = String::new();
    push_str(&mut out, mod_content);
    push_str(&mut out, "\nuse crate::libs::web::server::Server;\n");
    let mut any_api = false;
    let mut k: usize = 0;
    while k < routes.len()
        invariant
            k <= routes@.len(),
            any_api == exists|j: int| 0 <= j < k && (#[trigger] routes@[j]).kind == RouteKind::Api,
        decreases routes@.len() - k,
    {
        if routes[k].kind == RouteKind::Api {
            any_api = true;
        }
        k += 1;
    }
    let ghost p1 = out@;
    if any_api {
        push_str(&mut out, "use crate::libs::web::router::file_route::FileRoute;\n");
    }
    let ghost p2 = out@;
    if assets.len() > 0 {
        push_str(&mut out, "use crate::libs::web::http::request::Request;\n");
        push_str(&mut out, "use crate::libs::web::http::response::Response;\n");
        push_str(&mut out, "\n");
        push_asset_consts(&mut out, assets);
        push_str(&mut out, "\n");
        push_asset_handlers(&mut out, assets);
    }
    let ghost p3 = out@;
    push_str(&mut out, "pub fn start(host: &str, port: u16) -> ! {\n");
    push_str(&mut out, "    Server::new()\n");
    push_str(&mut out, "        .host(host)\n");
    push_str(&mut out, "        .port(port)\n");
    let ghost p4 = out@;
    match public_dir {
        Some(d) => {
            push_str(&mut out, "        .public_dir(\"");
            push_str(&mut out, d);
            push_str(&mut out, "\")\n");
        },
        None => {},
    }
    let ghost p5 = out@;
    push_asset_routes(&mut out, assets);
    push_page_routes(&mut out, routes);
    push_api_routes(&mut out, routes);
    push_not_found_routes(&mut out, routes);
    push_str(&mut out, "        .listen()\n");
    push_str(&mut out, "}\n");
    proof {
        assert(p2 =~= p1 + (if has_api(routes@) { "use crate::libs::web::router::file_route::FileRoute;\n"@ } else { Seq::<char>::empty() }));
        assert(p3 =~= p2 + (if assets@.len() > 0 {
            "use crate::libs::web::http::request::Request;\n"@ + "use crate::libs::web::http::response::Response;\n"@ + "\n"@
                + each_asset(assets@, |a: WasmAsset| asset_const(a)) + "\n"@ + each_asset(assets@, |a: WasmAsset| asset_handler(a))
        } else {
            Seq::<char>::empty()
        }));
        assert(p5 =~= p4 + (match opt_str(public_dir) {
            Some(d) => "        .public_dir(\""@ + d + "\")\n"@,
            None => Seq::<char>::empty(),
        }));
        assert(out@ =~= root_mod_text(mod_content@, routes@, opt_str(public_dir), assets@));
    }
    out
}

} // verus!
