//! Line rewrites of Client and Component bodies into WASM extern calls: DOM
//! queries, text setters, value getters and component state.

use vstd::prelude::*;
use vstd::string::StringSliceAdditionalSpecFns;
pub use super::wasm_module::generate_wasm_module;
use super::semantic::{trim_text, char_pieces};
use crate::text::{push_str, push_decimal, decimal, chars_of, string_of, trim_str, str_eq, occurs_at, chars_at};

verus! {

/// The first index at or after `i` where `pat` occurs in `s`, or -1.
pub open spec fn find_from(s: Seq<char>, pat: Seq<char>, i: int) -> int
    decreases s.len() + 1 - i,
{
    if i < 0 || i + pat.len() > s.len() {
        -1
    } else if occurs_at(s, pat, i) {
        i
    } else {
        find_from(s, pat, i + 1)
    }
}

/// The first index where `pat` occurs in `s`, or -1 (`str::find`).
pub open spec fn find_text(s: Seq<char>, pat: Seq<char>) -> int {
    find_from(s, pat, 0)
}

/// Where the string literal whose contents start at `j` closes (its quote), or
/// past the end; a backslash skips the next character.
pub open spec fn quote_end(s: Seq<char>, j: int) -> int
    decreases s.len() + 2 - j,
{
    if j >= s.len() || j < 0 {
        j
    } else if s[j] == '\\' {
        quote_end(s, j + 2)
    } else if s[j] == '"' {
        j
    } else {
        quote_end(s, j + 1)
    }
}

pub proof fn lemma_quote_end(s: Seq<char>, j: int)
    requires
        0 <= j <= s.len() + 1,
    ensures
        j <= quote_end(s, j) <= s.len() + 1,
    decreases s.len() + 2 - j,
{
    if j < s.len() {
        if s[j] == '\\' {
            lemma_quote_end(s, j + 2);
        } else if s[j] != '"' {
            lemma_quote_end(s, j + 1);
        }
    }
}

/// The `)` that closes a call whose arguments start at `i` with `depth`
/// parentheses open, skipping string literals; -1 if none.
pub open spec fn closing_paren(s: Seq<char>, i: int, depth: int) -> int
    decreases s.len() + 3 - i,
{
    if i >= s.len() || i < 0 {
        -1
    } else if s[i] == '(' {
        closing_paren(s, i + 1, depth + 1)
    } else if s[i] == ')' {
        if depth <= 1 { i } else { closing_paren(s, i + 1, depth - 1) }
    } else if s[i] == '"' {
        proof { lemma_quote_end(s, i + 1); }
        closing_paren(s, quote_end(s, i + 1) + 1, depth)
    } else {
        closing_paren(s, i + 1, depth)
    }
}

/// The variable of a `let <name> =` prefix, trimmed.
pub open spec fn let_var(before: Seq<char>) -> Option<Seq<char>> {
    let s = trim_text(before);
    if !(s.len() >= 4 && s.take(4) == "let "@) {
        None
    } else {
        let t = trim_text(s.skip(4));
        if !(t.len() >= 1 && t[t.len() - 1] == '=') { None } else { Some(trim_text(t.drop_last())) }
    }
}

/// The contents of a literal argument: without its first and last characters.
pub open spec fn unquoted(arg: Seq<char>) -> Seq<char> {
    if arg.len() >= 2 { arg.subrange(1, arg.len() - 1) } else { Seq::empty() }
}

/// `let x = dom::query(arg);` as a `__volki_dom_query` call.
pub open spec fn dom_query_rewrite(line: Seq<char>) -> Option<Seq<char>> {
    let q = find_text(line, "dom::query("@);
    if q < 0 {
        None
    } else {
        match let_var(line.take(q)) {
            None => None,
            Some(var) => {
                let start = q + 11;
                let end = closing_paren(line, start, 1);
                if end < 0 {
                    None
                } else {
                    let arg = trim_text(line.subrange(start, end));
                    if arg.len() > 0 && arg[0] == '"' {
                        Some("let __q = \""@ + unquoted(arg) + "\";\n"@ + "let "@ + var
                            + " = __volki_dom_query(__q.as_ptr() as i32, __q.len() as i32);"@)
                    } else {
                        Some("let "@ + var + " = __volki_dom_query("@ + arg + ".as_ptr() as i32, "@ + arg
                            + ".len() as i32);"@)
                    }
                }
            },
        }
    }
}

/// `s` without trailing `c` (repeatedly).
pub open spec fn strip_end_char(s: Seq<char>, c: char) -> Seq<char>
    decreases s.len(),
{
    if s.len() > 0 && s[s.len() - 1] == c { strip_end_char(s.drop_last(), c) } else { s }
}

/// `obj<method>arg);` as a call of `extern_name` with the argument's pointer and
/// length (a literal argument goes through the temporary `__s<counter>`); `None`
/// when the method is not called on the line.
pub open spec fn method_call_rewrite(line: Seq<char>, method: Seq<char>, extern_name: Seq<char>, counter: nat) -> Option<Seq<char>> {
    let m = find_text(line, method);
    if m < 0 {
        None
    } else {
        let obj = strip_end_char(trim_text(line.take(m)), ';');
        let start = m + method.len();
        let end = closing_paren(line, start, 1);
        if end < 0 {
            None
        } else {
            let arg = trim_text(line.subrange(start, end));
            let tmp = "__s"@ + decimal(counter);
            if arg.len() > 0 && arg[0] == '"' {
                Some("let "@ + tmp + " = \""@ + unquoted(arg) + "\";\n"@ + extern_name + "("@ + obj + ", "@ + tmp
                    + ".as_ptr() as i32, "@ + tmp + ".len() as i32);"@)
            } else {
                Some(extern_name + "("@ + obj + ", "@ + arg + ".as_ptr() as i32, "@ + arg + ".len() as i32);"@)
            }
        }
    }
}

/// The last index of `c` in `s[..i]`, or -1.
pub open spec fn last_index_before(s: Seq<char>, c: char, i: int) -> int
    decreases i,
{
    if i <= 0 {
        -1
    } else if s[i - 1] == c {
        i - 1
    } else {
        last_index_before(s, c, i - 1)
    }
}

/// `let v = obj.get_value();` as the pointer and length calls and the
/// reconstruction of the string.
pub open spec fn get_value_rewrite(line: Seq<char>) -> Option<Seq<char>> {
    let m = find_text(line, ".get_value("@);
    if m < 0 {
        None
    } else {
        let lhs = trim_text(line.take(m));
        if !(lhs.len() >= 4 && lhs.take(4) == "let "@) {
            None
        } else {
            let eq = last_index_before(lhs, '=', lhs.len() as int);
            if eq < 4 {
                None
            } else {
                let var = trim_text(lhs.subrange(4, eq));
                let obj = trim_text(lhs.skip(eq + 1));
                if var.len() == 0 || obj.len() == 0 || closing_paren(line, m + 11, 1) < 0 {
                    None
                } else {
                    Some("let __gvptr = __volki_dom_get_value("@ + obj + ");\n"@ + "let __gvlen = __volki_dom_get_value_len("@
                        + obj + ");\n"@ + "let "@ + var
                        + " = core::str::from_utf8_unchecked(core::slice::from_raw_parts(__gvptr as *const u8, __gvlen as usize));"@)
                }
            }
        }
    }
}

/// The state initializer and initial value of a `use_state` argument: `_i32`
/// and `_f32` suffixes pick the type, `true`/`false` become `1`/`0`, anything
/// else is an `i32`.
pub open spec fn state_init(arg: Seq<char>) -> (Seq<char>, Seq<char>) {
    if arg.len() >= 4 && arg.skip(arg.len() - 4) == "_i32"@ {
        ("__volki_state_init_i32"@, arg.take(arg.len() - 4))
    } else if arg.len() >= 4 && arg.skip(arg.len() - 4) == "_f32"@ {
        ("__volki_state_init_f32"@, arg.take(arg.len() - 4))
    } else if arg == "true"@ {
        ("__volki_state_init_i32"@, "1"@)
    } else if arg == "false"@ {
        ("__volki_state_init_i32"@, "0"@)
    } else {
        ("__volki_state_init_i32"@, arg)
    }
}

/// `let x = use_state(arg);` as a state initializer for the slot `slot`.
pub open spec fn use_state_rewrite(line: Seq<char>, slot: nat) -> Option<Seq<char>> {
    let u = find_text(line, "use_state("@);
    if u < 0 {
        None
    } else {
        match let_var(line.take(u)) {
            None => None,
            Some(var) => {
                let start = u + 10;
                let end = closing_paren(line, start, 1);
                if end < 0 {
                    None
                } else {
                    let init = state_init(trim_text(line.subrange(start, end)));
                    Some("let "@ + var + " = "@ + init.0 + "("@ + decimal(slot) + ", "@ + init.1 + ");"@)
                }
            },
        }
    }
}

/// `s` without leading and trailing `"` (repeatedly).
pub open spec fn strip_quotes(s: Seq<char>) -> Seq<char>
    decreases s.len(),
{
    if s.len() > 0 && s[0] == '"' {
        strip_quotes(s.skip(1))
    } else if s.len() > 0 && s[s.len() - 1] == '"' {
        strip_quotes(s.drop_last())
    } else {
        s
    }
}

/// The id of the first component named `name`, or 0.
pub open spec fn component_id_from(ids: Seq<(String, u32)>, name: Seq<char>, k: int) -> u32
    decreases ids.len() - k,
{
    if k >= ids.len() || k < 0 {
        0
    } else if ids[k].0@ == name {
        ids[k].1
    } else {
        component_id_from(ids, name, k + 1)
    }
}

/// The first index of `c` in `s`, or -1.
pub open spec fn index_of(s: Seq<char>, c: char) -> int {
    find_text(s, seq![c])
}

/// `let x = state::get_i32("comp", slot);` (or `get_f32`) as a cross-component
/// state read.
pub open spec fn state_get_rewrite(line: Seq<char>, ids: Seq<(String, u32)>) -> Option<Seq<char>> {
    let gi = find_text(line, "state::get_i32("@);
    let gf = find_text(line, "state::get_f32("@);
    if gi < 0 && gf < 0 {
        None
    } else {
        let g = if gi >= 0 { gi } else { gf };
        let ext = if gi >= 0 { "__volki_xstate_get_i32"@ } else { "__volki_xstate_get_f32"@ };
        match let_var(line.take(g)) {
            None => None,
            Some(var) => {
                let start = g + 15;
                let end = closing_paren(line, start, 1);
                if end < 0 {
                    None
                } else {
                    let args = line.subrange(start, end);
                    let comma = index_of(args, ',');
                    if comma < 0 {
                        None
                    } else {
                        let comp = strip_quotes(trim_text(args.take(comma)));
                        let slot = trim_text(args.skip(comma + 1));
                        Some("let "@ + var + " = "@ + ext + "("@ + decimal(component_id_from(ids, comp, 0) as nat) + ", "@
                            + slot + ");"@)
                    }
                }
            },
        }
    }
}

/// `state::set_i32("comp", slot, value);` (or `set_f32`) as a cross-component
/// state write.
pub open spec fn state_set_rewrite(line: Seq<char>, ids: Seq<(String, u32)>) -> Option<Seq<char>> {
    let si = find_text(line, "state::set_i32("@);
    let sf = find_text(line, "state::set_f32("@);
    if si < 0 && sf < 0 {
        None
    } else {
        let g = if si >= 0 { si } else { sf };
        let ext = if si >= 0 { "__volki_xstate_set_i32"@ } else { "__volki_xstate_set_f32"@ };
        let start = g + 15;
        let end = closing_paren(line, start, 1);
        if end < 0 {
            None
        } else {
            let args = line.subrange(start, end);
            let c1 = index_of(args, ',');
            if c1 < 0 {
                None
            } else {
                let rest = args.skip(c1 + 1);
                let c2 = index_of(rest, ',');
                if c2 < 0 {
                    None
                } else {
                    let comp = strip_quotes(trim_text(args.take(c1)));
                    Some(ext + "("@ + decimal(component_id_from(ids, comp, 0) as nat) + ", "@ + trim_text(rest.take(c2))
                        + ", "@ + trim_text(rest.skip(c2 + 1)) + ");"@)
                }
            }
        }
    }
}


/// The texts of an optional `String`.
pub open spec fn opt_text(s: Option<String>) -> Option<Seq<char>> {
    match s {
        Some(x) => Some(x@),
        None => None,
    }
}

fn find_at(s: &Vec<char>, pat: &str, from: usize) -> (r: Option<usize>)
    requires
        pat@.len() >= 1,
    ensures
        match r {
            Some(k) => k as int == find_from(s@, pat@, from as int) && from <= k && k + pat@.len() <= s@.len(),
            None => find_from(s@, pat@, from as int) == -1,
        },
{
    let pc = chars_of(pat);
    let n = s.len();
    let m = pc.len();
    let mut k = from;
    while k <= n && n - k >= m
        invariant
            pc@ == pat@,
            n == s@.len(),
            m == pc@.len(),
            m >= 1,
            from <= k,
            find_from(s@, pat@, k as int) == find_from(s@, pat@, from as int),
        decreases n + 1 - k,
    {
        if chars_at(s, k, &pc) {
            return Some(k);
        }
        k += 1;
    }
    None
}

fn closing_paren_at(s: &Vec<char>, start: usize) -> (r: Option<usize>)
    requires
        1 <= start,
    ensures
        match r {
            Some(k) => k as int == closing_paren(s@, start as int, 1) && start <= k < s@.len(),
            None => closing_paren(s@, start as int, 1) == -1,
        },
{
    let n = s.len();
    let mut depth: usize = 1;
    let mut i = start;
    while i < n
        invariant
            n == s@.len(),
            1 <= start <= i,
            1 <= depth <= i - start + 1,
            closing_paren(s@, i as int, depth as int) == closing_paren(s@, start as int, 1),
        decreases n - i,
    {
        let c = s[i];
        if c == '(' {
            depth += 1;
            i += 1;
        } else if c == ')' {
            if depth <= 1 {
                return Some(i);
            }
            depth -= 1;
            i += 1;
        } else if c == '"' {
            let mut j = i + 1;
            while j < n && s[j] != '"'
                invariant
                    n == s@.len(),
                    i < j <= n,
                    j < n ==> quote_end(s@, j as int) == quote_end(s@, i + 1),
                    j == n ==> quote_end(s@, i + 1) >= n,
                decreases n - j,
            {
                let ghost j0 = j;
                if s[j] == '\\' {
                    if n - j >= 2 {
                        j += 2;
                    } else {
                        proof { assert(quote_end(s@, j + 2) == j + 2); }
                        j = n;
                    }
                } else {
                    j += 1;
                }
                proof {
                    if j0 + 2 <= n && s@[j0 as int] == '\\' {
                        assert(quote_end(s@, j0 as int) == quote_end(s@, j0 + 2));
                    }
                    if s@[j0 as int] != '\\' {
                        assert(quote_end(s@, j0 as int) == quote_end(s@, j0 + 1));
                    }
                    assert(quote_end(s@, n as int) == n);
                }
            }
            if j >= n {
                proof {
                    lemma_quote_end(s@, i + 1);
                    assert(closing_paren(s@, i as int, depth as int)
                        == closing_paren(s@, quote_end(s@, i + 1) + 1, depth as int));
                }
                return None;
            }
            i = j + 1;
        } else {
            i += 1;
        }
    }
    None
}

/// The variable of a `let <name> =` prefix `s[..end]`.
fn let_var_of(s: &Vec<char>, end: usize) -> (r: Option<String>)
    requires
        end <= s@.len(),
    ensures
        opt_text(r) == let_var(s@.take(end as int)),
{
    let before = string_of(s, 0, end);
    proof { assert(before@ =~= s@.take(end as int)); }
    let t = trim_str(before.as_str());
    let tc = chars_of(t.as_str());
    if !(tc.len() >= 4 && tc[0] == 'l' && tc[1] == 'e' && tc[2] == 't' && tc[3] == ' ') {
        proof {
            reveal_strlit("let ");
            if tc@.len() >= 4 && tc@.take(4) == "let "@ {
                assert(tc@.take(4)[0] == 'l' && tc@.take(4)[1] == 'e' && tc@.take(4)[2] == 't' && tc@.take(4)[3] == ' ');
            }
        }
        return None;
    }
    proof {
        reveal_strlit("let ");
        assert(tc@.take(4) =~= "let "@);
    }
    let rest = string_of(&tc, 4, tc.len());
    proof { assert(rest@ =~= t@.skip(4)); }
    let u = trim_str(rest.as_str());
    let uc = chars_of(u.as_str());
    if !(uc.len() >= 1 && uc[uc.len() - 1] == '=') {
        return None;
    }
    let name = string_of(&uc, 0, uc.len() - 1);
    proof { assert(name@ =~= u@.drop_last()); }
    Some(trim_str(name.as_str()))
}

/// The trimmed text `s[from..to]`.
fn trimmed_range(s: &Vec<char>, from: usize, to: usize) -> (r: String)
    requires
        from <= to <= s@.len(),
    ensures
        r@ == trim_text(s@.subrange(from as int, to as int)),
{
    let piece = string_of(s, from, to);
    trim_str(piece.as_str())
}

/// `arg` without its first and last characters (see `unquoted`).
fn unquote(arg: &String) -> (r: String)
    ensures
        r@ == unquoted(arg@),
{
    let cs = chars_of(arg.as_str());
    if cs.len() >= 2 {
        string_of(&cs, 1, cs.len() - 1)
    } else {
        String::new()
    }
}

/// Whether `arg` starts with a quote.
fn starts_quoted(arg: &String) -> (r: bool)
    ensures
        r == (arg@.len() > 0 && arg@[0] == '"'),
{
    let cs = chars_of(arg.as_str());
    cs.len() > 0 && cs[0] == '"'
}

/// Rewrites `let x = dom::query(arg);` (`dom_query_rewrite`).
pub fn transform_dom_query(line: &str, _counter: &mut u32) -> (r: Option<String>)
    ensures
        opt_text(r) == dom_query_rewrite(line@),
        *final(_counter) == *old(_counter),
{
    let s = chars_of(line);
    proof {
        reveal_strlit("dom::query(");
        assert("dom::query("@.len() == 11);
    }
    let q = match find_at(&s, "dom::query(", 0) {
        Some(q) => q,
        None => { return None; },
    };
    let var = match let_var_of(&s, q) {
        Some(v) => v,
        None => { return None; },
    };
    let n = s.len();
    proof { assert(q + 11 <= n); }
    let start = q + 11;
    let end = match closing_paren_at(&s, start) {
        Some(e) => e,
        None => { return None; },
    };
    let arg = trimmed_range(&s, start, end);
    let mut out = String::new();
    if starts_quoted(&arg) {
        push_str(&mut out, "let __q = \"");
        push_str(&mut out, unquote(&arg).as_str());
        push_str(&mut out, "\";\n");
        push_str(&mut out, "let ");
        push_str(&mut out, var.as_str());
        push_str(&mut out, " = __volki_dom_query(__q.as_ptr() as i32, __q.len() as i32);");
    } else {
        push_str(&mut out, "let ");
        push_str(&mut out, var.as_str());
        push_str(&mut out, " = __volki_dom_query(");
        push_str(&mut out, arg.as_str());
        push_str(&mut out, ".as_ptr() as i32, ");
        push_str(&mut out, arg.as_str());
        push_str(&mut out, ".len() as i32);");
    }
    Some(out)
}

/// `s` without trailing `c` (`strip_end_char`).
fn strip_end(s: &String, c: char) -> (r: String)
    ensures
        r@ == strip_end_char(s@, c),
{
    let cs = chars_of(s.as_str());
    let mut end = cs.len();
    proof { assert(cs@.take(end as int) =~= s@); }
    while end > 0 && cs[end - 1] == c
        invariant
            cs@ == s@,
            end <= cs@.len(),
            strip_end_char(s@, c) == strip_end_char(cs@.take(end as int), c),
        decreases end,
    {
        proof { assert(cs@.take(end as int).drop_last() =~= cs@.take(end - 1)); }
        end -= 1;
    }
    string_of(&cs, 0, end)
}

/// Rewrites a call `obj<method>arg);` (`method_call_rewrite`); the counter
/// numbers the temporaries of literal arguments.
pub fn transform_method_call(line: &str, method: &str, extern_name: &str, counter: &mut u32) -> (r: Option<String>)
    requires
        method@.len() >= 1,
        *old(counter) < u32::MAX,
    ensures
        opt_text(r) == method_call_rewrite(line@, method@, extern_name@, *old(counter) as nat),
        r is Some ==> *final(counter) == *old(counter) + 1,
        r is None ==> *final(counter) == *old(counter),
{
    let s = chars_of(line);
    let m = match find_at(&s, method, 0) {
        Some(m) => m,
        None => { return None; },
    };
    let obj = strip_end(&trimmed_range(&s, 0, m), ';');
    proof { assert(s@.subrange(0, m as int) =~= s@.take(m as int)); }
    let n = s.len();
    let mlen = chars_of(method).len();
    proof { assert(m + mlen <= n); }
    let start = m + mlen;
    let end = match closing_paren_at(&s, start) {
        Some(e) => e,
        None => { return None; },
    };
    let arg = trimmed_range(&s, start, end);
    let mut tmp = String::new();
    push_str(&mut tmp, "__s");
    push_decimal(&mut tmp, *counter as usize);
    *counter = *counter + 1;
    let mut out = String::new();
    if starts_quoted(&arg) {
        push_str(&mut out, "let ");
        push_str(&mut out, tmp.as_str());
        push_str(&mut out, " = \"");
        push_str(&mut out, unquote(&arg).as_str());
        push_str(&mut out, "\";\n");
        push_str(&mut out, extern_name);
        push_str(&mut out, "(");
        push_str(&mut out, obj.as_str());
        push_str(&mut out, ", ");
        push_str(&mut out, tmp.as_str());
        push_str(&mut out, ".as_ptr() as i32, ");
        push_str(&mut out, tmp.as_str());
        push_str(&mut out, ".len() as i32);");
    } else {
        push_str(&mut out, extern_name);
        push_str(&mut out, "(");
        push_str(&mut out, obj.as_str());
        push_str(&mut out, ", ");
        push_str(&mut out, arg.as_str());
        push_str(&mut out, ".as_ptr() as i32, ");
        push_str(&mut out, arg.as_str());
        push_str(&mut out, ".len() as i32);");
    }
    Some(out)
}


fn last_char_before(s: &Vec<char>, c: char, i: usize) -> (r: Option<usize>)
    requires
        i <= s@.len(),
    ensures
        match r {
            Some(k) => k as int == last_index_before(s@, c, i as int) && k < i,
            None => last_index_before(s@, c, i as int) == -1,
        },
{
    let mut k = i;
    while k > 0 && s[k - 1] != c
        invariant
            k <= i <= s@.len(),
            last_index_before(s@, c, k as int) == last_index_before(s@, c, i as int),
        decreases k,
    {
        k -= 1;
    }
    if k == 0 { None } else { Some(k - 1) }
}

/// Whether `t` starts with `let `.
fn starts_with_let(t: &Vec<char>) -> (r: bool)
    ensures
        r == (t@.len() >= 4 && t@.take(4) == "let "@),
{
    proof { reveal_strlit("let "); }
    if t.len() >= 4 && t[0] == 'l' && t[1] == 'e' && t[2] == 't' && t[3] == ' ' {
        proof { assert(t@.take(4) =~= "let "@); }
        true
    } else {
        proof {
            if t@.len() >= 4 && t@.take(4) == "let "@ {
                assert(t@.take(4)[0] == 'l' && t@.take(4)[1] == 'e' && t@.take(4)[2] == 't' && t@.take(4)[3] == ' ');
            }
        }
        false
    }
}

/// Rewrites `let v = obj.get_value();` (`get_value_rewrite`).
pub fn transform_get_value(line: &str) -> (r: Option<String>)
    ensures
        opt_text(r) == get_value_rewrite(line@),
{
    let s = chars_of(line);
    proof {
        reveal_strlit(".get_value(");
        assert(".get_value("@.len() == 11);
    }
    let m = match find_at(&s, ".get_value(", 0) {
        Some(m) => m,
        None => { return None; },
    };
    let lhs = trimmed_range(&s, 0, m);
    proof { assert(s@.subrange(0, m as int) =~= s@.take(m as int)); }
    let lc = chars_of(lhs.as_str());
    if !starts_with_let(&lc) {
        return None;
    }
    let eq = match last_char_before(&lc, '=', lc.len()) {
        Some(e) => e,
        None => { return None; },
    };
    if eq < 4 {
        return None;
    }
    let var = trimmed_range(&lc, 4, eq);
    let obj = trimmed_range(&lc, eq + 1, lc.len());
    proof { assert(lc@.subrange(eq + 1, lc@.len() as int) =~= lhs@.skip(eq + 1)); }
    if var.as_str().is_empty() || obj.as_str().is_empty() {
        return None;
    }
    match closing_paren_at(&s, m + 11) {
        None => { return None; },
        Some(_) => {},
    }
    let mut out = String::new();
    push_str(&mut out, "let __gvptr = __volki_dom_get_value(");
    push_str(&mut out, obj.as_str());
    push_str(&mut out, ");\n");
    push_str(&mut out, "let __gvlen = __volki_dom_get_value_len(");
    push_str(&mut out, obj.as_str());
    push_str(&mut out, ");\n");
    push_str(&mut out, "let ");
    push_str(&mut out, var.as_str());
    push_str(&mut out, " = core::str::from_utf8_unchecked(core::slice::from_raw_parts(__gvptr as *const u8, __gvlen as usize));");
    Some(out)
}

/// Whether `t` ends with `suffix` (four characters).
fn ends_with4(t: &Vec<char>, suffix: &str) -> (r: bool)
    requires
        suffix@.len() == 4,
    ensures
        r == (t@.len() >= 4 && t@.skip(t@.len() - 4) == suffix@),
{
    let n = t.len();
    if n < 4 {
        return false;
    }
    let sc = chars_of(suffix);
    let r = chars_at(t, n - 4, &sc);
    proof { assert(t@.subrange(n - 4, n as int) =~= t@.skip(n - 4)); }
    r
}

/// Rewrites `let x = use_state(arg);` (`use_state_rewrite`) for the next state
/// slot, which it takes.
pub fn transform_use_state(line: &str, slot_counter: &mut u32) -> (r: Option<String>)
    requires
        *old(slot_counter) < u32::MAX,
    ensures
        opt_text(r) == use_state_rewrite(line@, *old(slot_counter) as nat),
        r is Some ==> *final(slot_counter) == *old(slot_counter) + 1,
        r is None ==> *final(slot_counter) == *old(slot_counter),
{
    let s = chars_of(line);
    proof {
        reveal_strlit("use_state(");
        assert("use_state("@.len() == 10);
        reveal_strlit("_i32");
        reveal_strlit("_f32");
    }
    let u = match find_at(&s, "use_state(", 0) {
        Some(u) => u,
        None => { return None; },
    };
    let var = match let_var_of(&s, u) {
        Some(v) => v,
        None => { return None; },
    };
    let n = s.len();
    proof { assert(u + 10 <= n); }
    let start = u + 10;
    let end = match closing_paren_at(&s, start) {
        Some(e) => e,
        None => { return None; },
    };
    let arg = trimmed_range(&s, start, end);
    let slot = *slot_counter;
    *slot_counter = slot + 1;
    let ac = chars_of(arg.as_str());
    let (ext, clean): (&str, String) = if ends_with4(&ac, "_i32") {
        ("__volki_state_init_i32", string_of(&ac, 0, ac.len() - 4))
    } else if ends_with4(&ac, "_f32") {
        ("__volki_state_init_f32", string_of(&ac, 0, ac.len() - 4))
    } else if str_eq(arg.as_str(), "true") {
        let mut one = String::new();
        push_str(&mut one, "1");
        ("__volki_state_init_i32", one)
    } else if str_eq(arg.as_str(), "false") {
        let mut zero = String::new();
        push_str(&mut zero, "0");
        ("__volki_state_init_i32", zero)
    } else {
        ("__volki_state_init_i32", arg)
    };
    proof {
        let init = state_init(trim_text(s@.subrange(start as int, end as int)));
        assert(ext@ == init.0);
        assert(clean@ =~= init.1);
    }
    let mut out = String::new();
    push_str(&mut out, "let ");
    push_str(&mut out, var.as_str());
    push_str(&mut out, " = ");
    push_str(&mut out, ext);
    push_str(&mut out, "(");
    push_decimal(&mut out, slot as usize);
    push_str(&mut out, ", ");
    push_str(&mut out, clean.as_str());
    push_str(&mut out, ");");
    Some(out)
}

/// The id of the first component named `name`, or 0.
pub fn resolve_component_id(name: &str, component_ids: &[(String, u32)]) -> (r: u32)
    ensures
        r == component_id_from(component_ids@, name@, 0),
{
    let mut k: usize = 0;
    while k < component_ids.len()
        invariant
            k <= component_ids@.len(),
            component_id_from(component_ids@, name@, k as int) == component_id_from(component_ids@, name@, 0),
        decreases component_ids@.len() - k,
    {
        if str_eq(component_ids[k].0.as_str(), name) {
            return component_ids[k].1;
        }
        k += 1;
    }
    0
}

fn strip_quote_marks(t: &String) -> (r: String)
    ensures
        r@ == strip_quotes(t@),
{
    let cs = chars_of(t.as_str());
    let mut lo: usize = 0;
    let mut hi = cs.len();
    proof { assert(cs@.subrange(0, hi as int) =~= t@); }
    while lo < hi && (cs[lo] == '"' || cs[hi - 1] == '"')
        invariant
            cs@ == t@,
            lo <= hi <= cs@.len(),
            strip_quotes(t@) == strip_quotes(cs@.subrange(lo as int, hi as int)),
        decreases hi - lo,
    {
        if cs[lo] == '"' {
            proof { assert(cs@.subrange(lo as int, hi as int).skip(1) =~= cs@.subrange(lo + 1, hi as int)); }
            lo += 1;
        } else {
            proof { assert(cs@.subrange(lo as int, hi as int).drop_last() =~= cs@.subrange(lo as int, hi - 1)); }
            hi -= 1;
        }
    }
    string_of(&cs, lo, hi)
}

/// Rewrites `let x = state::get_i32("comp", slot);` (or `get_f32`)
/// (`state_get_rewrite`).
pub fn transform_state_get(line: &str, component_ids: &[(String, u32)]) -> (r: Option<String>)
    ensures
        opt_text(r) == state_get_rewrite(line@, component_ids@),
{
    let s = chars_of(line);
    proof {
        reveal_strlit("state::get_i32(");
        reveal_strlit("state::get_f32(");
        assert("state::get_i32("@.len() == 15);
        assert("state::get_f32("@.len() == 15);
    }
    let (g, ext) = match find_at(&s, "state::get_i32(", 0) {
        Some(g) => (g, "__volki_xstate_get_i32"),
        None => match find_at(&s, "state::get_f32(", 0) {
            Some(g) => (g, "__volki_xstate_get_f32"),
            None => { return None; },
        },
    };
    let var = match let_var_of(&s, g) {
        Some(v) => v,
        None => { return None; },
    };
    let n = s.len();
    proof { assert(g + 15 <= n); }
    let start = g + 15;
    let end = match closing_paren_at(&s, start) {
        Some(e) => e,
        None => { return None; },
    };
    let args = string_of(&s, start, end);
    let ac = chars_of(args.as_str());
    proof { reveal_strlit(","); assert(","@ =~= seq![',']); }
    let comma = match find_at(&ac, ",", 0) {
        Some(c) => c,
        None => { return None; },
    };
    let comp = strip_quote_marks(&trimmed_range(&ac, 0, comma));
    let slot = trimmed_range(&ac, comma + 1, ac.len());
    proof {
        assert(ac@.subrange(0, comma as int) =~= ac@.take(comma as int));
        assert(ac@.subrange(comma + 1, ac@.len() as int) =~= ac@.skip(comma + 1));
    }
    let id = resolve_component_id(comp.as_str(), component_ids);
    let mut out = String::new();
    push_str(&mut out, "let ");
    push_str(&mut out, var.as_str());
    push_str(&mut out, " = ");
    push_str(&mut out, ext);
    push_str(&mut out, "(");
    push_decimal(&mut out, id as usize);
    push_str(&mut out, ", ");
    push_str(&mut out, slot.as_str());
    push_str(&mut out, ");");
    Some(out)
}

/// Rewrites `state::set_i32("comp", slot, value);` (or `set_f32`)
/// (`state_set_rewrite`).
pub fn transform_state_set(line: &str, component_ids: &[(String, u32)]) -> (r: Option<String>)
    ensures
        opt_text(r) == state_set_rewrite(line@, component_ids@),
{
    let s = chars_of(line);
    if s.len() < 15 {
        return None;
    }
    proof {
        reveal_strlit("state::set_i32(");
        reveal_strlit("state::set_f32(");
        assert("state::set_i32("@.len() == 15);
        assert("state::set_f32("@.len() == 15);
    }
    let (start, ext) = match find_at(&s, "state::set_i32(", 0) {
        Some(g) => (g + 15, "__volki_xstate_set_i32"),
        None => match find_at(&s, "state::set_f32(", 0) {
            Some(g) => (g + 15, "__volki_xstate_set_f32"),
            None => { return None; },
        },
    };
    let end = match closing_paren_at(&s, start) {
        Some(e) => e,
        None => { return None; },
    };
    let args = string_of(&s, start, end);
    let ac = chars_of(args.as_str());
    proof { reveal_strlit(","); assert(","@ =~= seq![',']); }
    let c1 = match find_at(&ac, ",", 0) {
        Some(c) => c,
        None => { return None; },
    };
    let rest = string_of(&ac, c1 + 1, ac.len());
    proof { assert(rest@ =~= ac@.skip(c1 + 1)); }
    let rc = chars_of(rest.as_str());
    let c2 = match find_at(&rc, ",", 0) {
        Some(c) => c,
        None => { return None; },
    };
    let comp = strip_quote_marks(&trimmed_range(&ac, 0, c1));
    let slot = trimmed_range(&rc, 0, c2);
    let value = trimmed_range(&rc, c2 + 1, rc.len());
    proof {
        assert(ac@.subrange(0, c1 as int) =~= ac@.take(c1 as int));
        assert(rc@.subrange(0, c2 as int) =~= rc@.take(c2 as int));
        assert(rc@.subrange(c2 + 1, rc@.len() as int) =~= rc@.skip(c2 + 1));
    }
    let id = resolve_component_id(comp.as_str(), component_ids);
    let mut out = String::new();
    push_str(&mut out, ext);
    push_str(&mut out, "(");
    push_decimal(&mut out, id as usize);
    push_str(&mut out, ", ");
    push_str(&mut out, slot.as_str());
    push_str(&mut out, ", ");
    push_str(&mut out, value.as_str());
    push_str(&mut out, ");");
    Some(out)
}


// ── Client bodies ──────────────────────────────────────────────────────

/// The argument span of the first call `pat ... )` in `line`.
pub open spec fn call_span(line: Seq<char>, pat: Seq<char>) -> Option<(int, int)> {
    let q = find_text(line, pat);
    if q < 0 {
        None
    } else {
        let e = closing_paren(line, q + pat.len(), 1);
        if e < 0 { None } else { Some((q + pat.len(), e)) }
    }
}

/// The two trimmed sides of the first comma of `args`.
pub open spec fn comma_parts(args: Seq<char>) -> Option<(Seq<char>, Seq<char>)> {
    let c = index_of(args, ',');
    if c < 0 { None } else { Some((trim_text(args.take(c)), trim_text(args.skip(c + 1)))) }
}

/// The argument is a string literal.
pub open spec fn quoted(arg: Seq<char>) -> bool {
    arg.len() > 0 && arg[0] == '"'
}

/// `let <tmp> = <arg>;` (a literal argument keeps its quotes).
pub open spec fn bind_tmp(tmp: Seq<char>, arg: Seq<char>) -> Seq<char> {
    if quoted(arg) {
        "let "@ + tmp + " = \""@ + unquoted(arg) + "\";\n"@
    } else {
        "let "@ + tmp + " = "@ + arg + ";\n"@
    }
}

/// The first of two call patterns found in `line` (the first pattern wins),
/// with the extern that replaces it.
pub open spec fn pick_call(line: Seq<char>, p1: Seq<char>, e1: Seq<char>, p2: Seq<char>, e2: Seq<char>) -> Option<(int, Seq<char>)> {
    if find_text(line, p1) >= 0 {
        Some((find_text(line, p1), e1))
    } else if find_text(line, p2) >= 0 {
        Some((find_text(line, p2), e2))
    } else {
        None
    }
}

/// `let x = ref::get_i32(slot);` (or `get_f32`) as a ref read.
pub open spec fn ref_get_rewrite(line: Seq<char>) -> Option<Seq<char>> {
    match pick_call(line, "ref::get_i32("@, "__volki_ref_get_i32"@, "ref::get_f32("@, "__volki_ref_get_f32"@) {
        None => None,
        Some((g, ext)) => match let_var(line.take(g)) {
            None => None,
            Some(var) => {
                let e = closing_paren(line, g + 13, 1);
                if e < 0 { None } else { Some("let "@ + var + " = "@ + ext + "("@ + trim_text(line.subrange(g + 13, e)) + ");"@) }
            },
        },
    }
}

/// `ref::set_i32(slot, value);` (or `set_f32`) as a ref write.
pub open spec fn ref_set_rewrite(line: Seq<char>) -> Option<Seq<char>> {
    match pick_call(line, "ref::set_i32("@, "__volki_ref_set_i32"@, "ref::set_f32("@, "__volki_ref_set_f32"@) {
        None => None,
        Some((g, ext)) => {
            let e = closing_paren(line, g + 13, 1);
            if e < 0 {
                None
            } else {
                match comma_parts(line.subrange(g + 13, e)) {
                    None => None,
                    Some((a, b)) => Some(ext + "("@ + a + ", "@ + b + ");"@),
                }
            }
        },
    }
}

/// `let x = state::get_str("comp", slot);` as the pointer and length reads and
/// the reconstruction of the string.
pub open spec fn state_get_str_rewrite(line: Seq<char>, ids: Seq<(String, u32)>) -> Option<Seq<char>> {
    let g = find_text(line, "state::get_str("@);
    if g < 0 {
        None
    } else {
        match let_var(line.take(g)) {
            None => None,
            Some(var) => match call_span(line, "state::get_str("@) {
                None => None,
                Some((st, e)) => match comma_parts(line.subrange(st, e)) {
                    None => None,
                    Some((a, slot)) => {
                        let id = decimal(component_id_from(ids, strip_quotes(a), 0) as nat);
                        Some("let __gsptr = __volki_xstate_get_str("@ + id + ", "@ + slot + ");\n"@
                            + "let __gslen = __volki_xstate_get_str_len("@ + id + ", "@ + slot + ");\n"@ + "let "@ + var
                            + " = core::str::from_utf8_unchecked(core::slice::from_raw_parts(__gsptr as *const u8, __gslen as usize));"@)
                    },
                },
            },
        }
    }
}

/// `state::set_str("comp", slot, value);` through the temporary `__ss<counter>`.
pub open spec fn state_set_str_rewrite(line: Seq<char>, ids: Seq<(String, u32)>, counter: nat) -> Option<Seq<char>> {
    match call_span(line, "state::set_str("@) {
        None => None,
        Some((st, e)) => {
            let args = line.subrange(st, e);
            let c1 = index_of(args, ',');
            if c1 < 0 {
                None
            } else {
                let rest = args.skip(c1 + 1);
                let c2 = index_of(rest, ',');
                if c2 < 0 {
                    None
                } else {
                    let id = decimal(component_id_from(ids, strip_quotes(trim_text(args.take(c1))), 0) as nat);
                    let tmp = "__ss"@ + decimal(counter);
                    Some(bind_tmp(tmp, trim_text(rest.skip(c2 + 1))) + "__volki_xstate_set_str("@ + id + ", "@
                        + trim_text(rest.take(c2)) + ", "@ + tmp + ".as_ptr() as i32, "@ + tmp + ".len() as i32);"@)
                }
            }
        },
    }
}

/// `let x = <pat>arg);` as `let x = <ext>(ptr, len);`, a literal argument going
/// through the temporary `tmp`.
pub open spec fn ptr_len_let_rewrite(line: Seq<char>, pat: Seq<char>, tmp: Seq<char>, ext: Seq<char>) -> Option<Seq<char>> {
    let g = find_text(line, pat);
    if g < 0 {
        None
    } else {
        match let_var(line.take(g)) {
            None => None,
            Some(var) => match call_span(line, pat) {
                None => None,
                Some((st, e)) => {
                    let arg = trim_text(line.subrange(st, e));
                    if quoted(arg) {
                        Some("let "@ + tmp + " = \""@ + unquoted(arg) + "\";\n"@ + "let "@ + var + " = "@ + ext + "("@ + tmp
                            + ".as_ptr() as i32, "@ + tmp + ".len() as i32);"@)
                    } else {
                        Some("let "@ + var + " = "@ + ext + "("@ + arg + ".as_ptr() as i32, "@ + arg + ".len() as i32);"@)
                    }
                },
            },
        }
    }
}

/// `dom::append(parent, child);` as `__volki_dom_append(parent, child);`.
pub open spec fn dom_append_rewrite(line: Seq<char>) -> Option<Seq<char>> {
    match call_span(line, "dom::append("@) {
        None => None,
        Some((st, e)) => match comma_parts(line.subrange(st, e)) {
            None => None,
            Some((a, b)) => Some("__volki_dom_append("@ + a + ", "@ + b + ");"@),
        },
    }
}

/// `dom::remove(handle);` as `__volki_dom_remove(handle);`.
pub open spec fn dom_remove_rewrite(line: Seq<char>) -> Option<Seq<char>> {
    match call_span(line, "dom::remove("@) {
        None => None,
        Some((st, e)) => Some("__volki_dom_remove("@ + trim_text(line.subrange(st, e)) + ");"@),
    }
}

/// `dom::set_html(handle, html);` through the temporary `__h<counter>`.
pub open spec fn dom_set_html_rewrite(line: Seq<char>, counter: nat) -> Option<Seq<char>> {
    match call_span(line, "dom::set_html("@) {
        None => None,
        Some((st, e)) => match comma_parts(line.subrange(st, e)) {
            None => None,
            Some((handle, html)) => {
                let tmp = "__h"@ + decimal(counter);
                Some(bind_tmp(tmp, html) + "__volki_dom_set_html("@ + handle + ", "@ + tmp + ".as_ptr() as i32, "@ + tmp
                    + ".len() as i32);"@)
            },
        },
    }
}

/// `let x = dom::query_all_get(sel, i);` as an indexed query.
pub open spec fn query_all_get_rewrite(line: Seq<char>) -> Option<Seq<char>> {
    let g = find_text(line, "dom::query_all_get("@);
    if g < 0 {
        None
    } else {
        match let_var(line.take(g)) {
            None => None,
            Some(var) => match call_span(line, "dom::query_all_get("@) {
                None => None,
                Some((st, e)) => match comma_parts(line.subrange(st, e)) {
                    None => None,
                    Some((sel, i)) => if quoted(sel) {
                        Some("let __qag = \""@ + unquoted(sel) + "\";\n"@ + "let "@ + var
                            + " = __volki_dom_query_all_get(__qag.as_ptr() as i32, __qag.len() as i32, "@ + i + ");"@)
                    } else {
                        Some("let "@ + var + " = __volki_dom_query_all_get("@ + sel + ".as_ptr() as i32, "@ + sel
                            + ".len() as i32, "@ + i + ");"@)
                    },
                },
            },
        }
    }
}

/// `obj.set_attr(name, value);` through the temporaries `__n<counter>` and
/// `__v<counter>`.
pub open spec fn set_attr_rewrite(line: Seq<char>, counter: nat) -> Option<Seq<char>> {
    let m = find_text(line, ".set_attr("@);
    if m < 0 {
        None
    } else {
        let obj = trim_text(line.take(m));
        match call_span(line, ".set_attr("@) {
            None => None,
            Some((st, e)) => match comma_parts(line.subrange(st, e)) {
                None => None,
                Some((name, value)) => {
                    let n = "__n"@ + decimal(counter);
                    let v = "__v"@ + decimal(counter);
                    Some(bind_tmp(n, name) + bind_tmp(v, value) + "__volki_dom_set_attr("@ + obj + ", "@ + n
                        + ".as_ptr() as i32, "@ + n + ".len() as i32, "@ + v + ".as_ptr() as i32, "@ + v + ".len() as i32);"@)
                },
            },
        }
    }
}

/// `s` without leading `-` (repeatedly).
pub open spec fn strip_minus(s: Seq<char>) -> Seq<char>
    decreases s.len(),
{
    if s.len() > 0 && s[0] == '-' { strip_minus(s.skip(1)) } else { s }
}

/// All characters of `s` are ASCII digits.
pub open spec fn all_digits(s: Seq<char>) -> bool {
    forall|k: int| 0 <= k < s.len() ==> '0' <= #[trigger] s[k] <= '9'
}

/// `s` starts with `p`.
pub open spec fn starts(s: Seq<char>, p: Seq<char>) -> bool {
    s.len() >= p.len() && s.take(p.len() as int) == p
}

/// What the declaration `let <arg> = <rest>` says of the type: `Some(true)` for
/// an i32 source, `Some(false)` for a string source, `None` when it does not tell.
pub open spec fn decl_kind(rest: Seq<char>) -> Option<bool> {
    if starts(rest, "get_"@) || starts(rest, "state::get_i32("@) || starts(rest, "state::get_f32("@) {
        Some(true)
    } else if crate::text::occurs_in(rest, ".get_value()"@) || starts(rest, "state::get_str("@) || starts(rest, "state::fmt_"@)
        || starts(rest, "\""@) {
        Some(false)
    } else {
        None
    }
}

/// The verdict of the first line of `lines` (from `k` on) that declares `arg`
/// and tells its type.
pub open spec fn decl_verdict(lines: Seq<Seq<char>>, arg: Seq<char>, k: int) -> Option<bool>
    decreases lines.len() - k,
{
    if k >= lines.len() || k < 0 {
        None
    } else {
        let bt = trim_text(lines[k]);
        let pat = "let "@ + arg + " = "@;
        if starts(bt, pat) && decl_kind(bt.skip(pat.len() as int)) is Some {
            decl_kind(bt.skip(pat.len() as int))
        } else {
            decl_verdict(lines, arg, k + 1)
        }
    }
}

/// The trimmed line `bt` declares `arg` as the first of a numeric `use_state` tuple.
pub open spec fn tuple_decl_line(bt: Seq<char>, arg: Seq<char>) -> bool {
    &&& (starts(bt, "let ("@ + arg + ","@) || starts(bt, "let ("@ + arg + " ,"@))
    &&& crate::text::occurs_in(bt, "use_state("@)
    &&& (crate::text::occurs_in(bt, "_i32"@) || crate::text::occurs_in(bt, "_f32"@))
}

/// Some line declares `arg` as the first of a numeric `use_state` tuple.
pub open spec fn numeric_tuple_decl(lines: Seq<Seq<char>>, arg: Seq<char>) -> bool {
    exists|k: int| 0 <= k < lines.len() && #[trigger] tuple_decl_line(trim_text(lines[k]), arg)
}

/// The argument is an i32 by its shape alone: a (negated) number, arithmetic, or
/// a `get_*()` call.
pub open spec fn i32_shape(arg: Seq<char>) -> bool {
    let t = strip_minus(arg);
    ||| t.len() > 0 && all_digits(t)
    ||| crate::text::occurs_in(arg, " + "@) || crate::text::occurs_in(arg, " - "@) || crate::text::occurs_in(arg, " * "@)
        || crate::text::occurs_in(arg, " / "@) || crate::text::occurs_in(arg, " % "@)
    ||| starts(arg, "get_"@) && arg.len() > 0 && arg[arg.len() - 1] == ')'
}

/// Whether a `dom::log` argument is an i32: by its shape, or else by what the
/// first declaration of the variable in the body says, or else by a numeric
/// `use_state` tuple that declares it.
pub open spec fn i32_arg(arg: Seq<char>, body: Seq<char>) -> bool {
    let lines = crate::compiler::semantic::char_pieces(body, '\n', 0, 0);
    if i32_shape(arg) {
        true
    } else {
        match decl_verdict(lines, arg, 0) {
            Some(v) => v,
            None => numeric_tuple_decl(lines, arg),
        }
    }
}

/// `dom::log(arg);` as a string or number log, through `__l<counter>` for a literal.
pub open spec fn dom_log_rewrite(line: Seq<char>, counter: nat, body: Seq<char>) -> Option<Seq<char>> {
    match call_span(line, "dom::log("@) {
        None => None,
        Some((st, e)) => {
            let arg = trim_text(line.subrange(st, e));
            let tmp = "__l"@ + decimal(counter);
            if quoted(arg) {
                Some("let "@ + tmp + " = \""@ + unquoted(arg) + "\";\n"@ + "__volki_log_str("@ + tmp + ");"@)
            } else if i32_arg(arg, body) {
                Some("__volki_log_i32("@ + arg + ");"@)
            } else {
                Some("__volki_log_str("@ + arg + ");"@)
            }
        },
    }
}

/// The DOM rewrites shared by Client and Component bodies: the first that
/// applies (in a fixed order), or the line itself; with the temporaries counter
/// after it.
#[verifier::opaque]
pub open spec fn dom_line(t: Seq<char>, c: nat, body: Seq<char>) -> (Seq<char>, nat) {
    if ptr_len_let_rewrite(t, "dom::create("@, "__ct"@, "__volki_dom_create"@) is Some {
        (ptr_len_let_rewrite(t, "dom::create("@, "__ct"@, "__volki_dom_create"@)->0, c)
    } else if dom_append_rewrite(t) is Some {
        (dom_append_rewrite(t)->0, c)
    } else if dom_remove_rewrite(t) is Some {
        (dom_remove_rewrite(t)->0, c)
    } else if dom_set_html_rewrite(t, c) is Some {
        (dom_set_html_rewrite(t, c)->0, c + 1)
    } else if ptr_len_let_rewrite(t, "dom::query_all_count("@, "__qac"@, "__volki_dom_query_all_count"@) is Some {
        (ptr_len_let_rewrite(t, "dom::query_all_count("@, "__qac"@, "__volki_dom_query_all_count"@)->0, c)
    } else if query_all_get_rewrite(t) is Some {
        (query_all_get_rewrite(t)->0, c)
    } else if dom_query_rewrite(t) is Some {
        (dom_query_rewrite(t)->0, c)
    } else if get_value_rewrite(t) is Some {
        (get_value_rewrite(t)->0, c)
    } else if method_call_rewrite(t, ".set_text("@, "__volki_dom_set_text"@, c) is Some {
        (method_call_rewrite(t, ".set_text("@, "__volki_dom_set_text"@, c)->0, c + 1)
    } else if method_call_rewrite(t, ".add_class("@, "__volki_dom_add_class"@, c) is Some {
        (method_call_rewrite(t, ".add_class("@, "__volki_dom_add_class"@, c)->0, c + 1)
    } else if method_call_rewrite(t, ".remove_class("@, "__volki_dom_remove_class"@, c) is Some {
        (method_call_rewrite(t, ".remove_class("@, "__volki_dom_remove_class"@, c)->0, c + 1)
    } else if method_call_rewrite(t, ".toggle_class("@, "__volki_dom_toggle_class"@, c) is Some {
        (method_call_rewrite(t, ".toggle_class("@, "__volki_dom_toggle_class"@, c)->0, c + 1)
    } else if method_call_rewrite(t, ".remove_attr("@, "__volki_dom_remove_attr"@, c) is Some {
        (method_call_rewrite(t, ".remove_attr("@, "__volki_dom_remove_attr"@, c)->0, c + 1)
    } else if set_attr_rewrite(t, c) is Some {
        (set_attr_rewrite(t, c)->0, c + 1)
    } else if dom_log_rewrite(t, c, body) is Some {
        (dom_log_rewrite(t, c, body)->0, c + 1)
    } else {
        (t, c)
    }
}

/// One line of a Client body: the ref and cross-component state rewrites, then
/// the DOM rewrites (the first that applies), or the line itself; with the
/// temporaries counter after it.
#[verifier::opaque]
pub open spec fn client_line(t: Seq<char>, ids: Seq<(String, u32)>, c: nat, body: Seq<char>) -> (Seq<char>, nat) {
    if ref_get_rewrite(t) is Some {
        (ref_get_rewrite(t)->0, c)
    } else if ref_set_rewrite(t) is Some {
        (ref_set_rewrite(t)->0, c)
    } else if state_get_str_rewrite(t, ids) is Some {
        (state_get_str_rewrite(t, ids)->0, c)
    } else if state_set_str_rewrite(t, ids, c) is Some {
        (state_set_str_rewrite(t, ids, c)->0, c + 1)
    } else if state_get_rewrite(t, ids) is Some {
        (state_get_rewrite(t, ids)->0, c)
    } else if state_set_rewrite(t, ids) is Some {
        (state_set_rewrite(t, ids)->0, c)
    } else {
        dom_line(t, c, body)
    }
}

/// A Client body rewritten line by line (lines trimmed, empty lines dropped,
/// `extern "C" { ... }` blocks skipped): output, counter and whether an extern
/// block is open.
pub open spec fn client_fold(lines: Seq<Seq<char>>, ids: Seq<(String, u32)>, body: Seq<char>) -> (Seq<char>, nat, bool)
    decreases lines.len(),
{
    if lines.len() == 0 {
        (Seq::empty(), 0, false)
    } else {
        let prev = client_fold(lines.drop_last(), ids, body);
        let t = trim_text(lines.last());
        if t.len() == 0 {
            prev
        } else if starts(t, "extern "@) && index_of(t, '{') >= 0 {
            (prev.0, prev.1, true)
        } else if prev.2 {
            (prev.0, prev.1, index_of(t, '}') < 0)
        } else {
            let step = client_line(t, ids, prev.1, body);
            (prev.0 + step.0 + "\n"@, step.1, false)
        }
    }
}

/// The argument span of the first call `pat ... )` in `s` (`call_span`).
fn call_span_of(s: &Vec<char>, pat: &str) -> (r: Option<(usize, usize)>)
    requires
        pat@.len() >= 1,
    ensures
        match r {
            Some((a, b)) => call_span(s@, pat@) == Some((a as int, b as int)) && a <= b <= s@.len(),
            None => call_span(s@, pat@) is None,
        },
{
    let q = match find_at(s, pat, 0) {
        Some(q) => q,
        None => { return None; },
    };
    let n = s.len();
    let pl = chars_of(pat).len();
    proof { assert(q + pl <= n); }
    let start = q + pl;
    match closing_paren_at(s, start) {
        Some(e) => Some((start, e)),
        None => None,
    }
}

/// The two trimmed sides of the first comma of `s[from..to]` (`comma_parts`).
fn comma_split(s: &Vec<char>, from: usize, to: usize) -> (r: Option<(String, String)>)
    requires
        from <= to <= s@.len(),
    ensures
        match r {
            Some((a, b)) => comma_parts(s@.subrange(from as int, to as int)) == Some((a@, b@)),
            None => comma_parts(s@.subrange(from as int, to as int)) is None,
        },
{
    let args = string_of(s, from, to);
    let ac = chars_of(args.as_str());
    proof { reveal_strlit(","); assert(","@ =~= seq![',']); }
    let c = match find_at(&ac, ",", 0) {
        Some(c) => c,
        None => { return None; },
    };
    let a = trimmed_range(&ac, 0, c);
    let b = trimmed_range(&ac, c + 1, ac.len());
    proof {
        assert(ac@.subrange(0, c as int) =~= ac@.take(c as int));
        assert(ac@.subrange(c + 1, ac@.len() as int) =~= ac@.skip(c + 1));
    }
    Some((a, b))
}

/// Appends `let <tmp> = <arg>;` (`bind_tmp`).
fn push_bind_tmp(out: &mut String, tmp: &String, arg: &String)
    ensures
        final(out)@ == old(out)@ + bind_tmp(tmp@, arg@),
{
    push_str(out, "let ");
    push_str(out, tmp.as_str());
    if starts_quoted(arg) {
        push_str(out, " = \"");
        push_str(out, unquote(arg).as_str());
        push_str(out, "\";\n");
    } else {
        push_str(out, " = ");
        push_str(out, arg.as_str());
        push_str(out, ";\n");
    }
}

/// The temporary `<prefix><n>`.
fn temp_name(prefix: &str, n: u32) -> (r: String)
    ensures
        r@ == prefix@ + decimal(n as nat),
{
    let mut t = String::new();
    push_str(&mut t, prefix);
    push_decimal(&mut t, n as usize);
    t
}

/// Rewrites `let x = ref::get_i32(slot);` (or `get_f32`) (`ref_get_rewrite`).
pub fn transform_ref_get(line: &str) -> (r: Option<String>)
    ensures
        opt_text(r) == ref_get_rewrite(line@),
{
    let s = chars_of(line);
    proof {
        reveal_strlit("ref::get_i32(");
        reveal_strlit("ref::get_f32(");
        assert("ref::get_i32("@.len() == 13);
        assert("ref::get_f32("@.len() == 13);
    }
    if s.len() < 13 {
        return None;
    }
    let (g, ext) = match find_at(&s, "ref::get_i32(", 0) {
        Some(g) => (g, "__volki_ref_get_i32"),
        None => match find_at(&s, "ref::get_f32(", 0) {
            Some(g) => (g, "__volki_ref_get_f32"),
            None => { return None; },
        },
    };
    let var = match let_var_of(&s, g) {
        Some(v) => v,
        None => { return None; },
    };
    let start = g + 13;
    let end = match closing_paren_at(&s, start) {
        Some(e) => e,
        None => { return None; },
    };
    let slot = trimmed_range(&s, start, end);
    let mut out = String::new();
    push_str(&mut out, "let ");
    push_str(&mut out, var.as_str());
    push_str(&mut out, " = ");
    push_str(&mut out, ext);
    push_str(&mut out, "(");
    push_str(&mut out, slot.as_str());
    push_str(&mut out, ");");
    Some(out)
}

/// Rewrites `ref::set_i32(slot, value);` (or `set_f32`) (`ref_set_rewrite`).
pub fn transform_ref_set(line: &str) -> (r: Option<String>)
    ensures
        opt_text(r) == ref_set_rewrite(line@),
{
    let s = chars_of(line);
    proof {
        reveal_strlit("ref::set_i32(");
        reveal_strlit("ref::set_f32(");
        assert("ref::set_i32("@.len() == 13);
        assert("ref::set_f32("@.len() == 13);
    }
    if s.len() < 13 {
        return None;
    }
    let (start, ext) = match find_at(&s, "ref::set_i32(", 0) {
        Some(g) => (g + 13, "__volki_ref_set_i32"),
        None => match find_at(&s, "ref::set_f32(", 0) {
            Some(g) => (g + 13, "__volki_ref_set_f32"),
            None => { return None; },
        },
    };
    let end = match closing_paren_at(&s, start) {
        Some(e) => e,
        None => { return None; },
    };
    let (slot, value) = match comma_split(&s, start, end) {
        Some(p) => p,
        None => { return None; },
    };
    let mut out = String::new();
    push_str(&mut out, ext);
    push_str(&mut out, "(");
    push_str(&mut out, slot.as_str());
    push_str(&mut out, ", ");
    push_str(&mut out, value.as_str());
    push_str(&mut out, ");");
    Some(out)
}

/// Rewrites `let x = state::get_str("comp", slot);` (`state_get_str_rewrite`).
pub fn transform_state_get_str(line: &str, component_ids: &[(String, u32)]) -> (r: Option<String>)
    ensures
        opt_text(r) == state_get_str_rewrite(line@, component_ids@),
{
    let s = chars_of(line);
    proof {
        reveal_strlit("state::get_str(");
        assert("state::get_str("@.len() == 15);
    }
    let g = match find_at(&s, "state::get_str(", 0) {
        Some(g) => g,
        None => { return None; },
    };
    let var = match let_var_of(&s, g) {
        Some(v) => v,
        None => { return None; },
    };
    let (st, e) = match call_span_of(&s, "state::get_str(") {
        Some(p) => p,
        None => { return None; },
    };
    let (comp, slot) = match comma_split(&s, st, e) {
        Some(p) => p,
        None => { return None; },
    };
    let id = resolve_component_id(strip_quote_marks(&comp).as_str(), component_ids);
    let mut out = String::new();
    push_str(&mut out, "let __gsptr = __volki_xstate_get_str(");
    push_decimal(&mut out, id as usize);
    push_str(&mut out, ", ");
    push_str(&mut out, slot.as_str());
    push_str(&mut out, ");\n");
    push_str(&mut out, "let __gslen = __volki_xstate_get_str_len(");
    push_decimal(&mut out, id as usize);
    push_str(&mut out, ", ");
    push_str(&mut out, slot.as_str());
    push_str(&mut out, ");\n");
    push_str(&mut out, "let ");
    push_str(&mut out, var.as_str());
    push_str(&mut out, " = core::str::from_utf8_unchecked(core::slice::from_raw_parts(__gsptr as *const u8, __gslen as usize));");
    Some(out)
}

/// Rewrites `state::set_str("comp", slot, value);` through the next temporary
/// `__ss<counter>` (`state_set_str_rewrite`).
pub fn transform_state_set_str(line: &str, component_ids: &[(String, u32)], counter: &mut u32) -> (r: Option<String>)
    requires
        *old(counter) < u32::MAX,
    ensures
        opt_text(r) == state_set_str_rewrite(line@, component_ids@, *old(counter) as nat),
        r is Some ==> *final(counter) == *old(counter) + 1,
        r is None ==> *final(counter) == *old(counter),
{
    let s = chars_of(line);
    proof {
        reveal_strlit("state::set_str(");
        assert("state::set_str("@.len() == 15);
    }
    let (st, e) = match call_span_of(&s, "state::set_str(") {
        Some(p) => p,
        None => { return None; },
    };
    let args = string_of(&s, st, e);
    let ac = chars_of(args.as_str());
    proof { reveal_strlit(","); assert(","@ =~= seq![',']); }
    let c1 = match find_at(&ac, ",", 0) {
        Some(c) => c,
        None => { return None; },
    };
    let (slot, value) = match comma_split(&ac, c1 + 1, ac.len()) {
        Some(p) => p,
        None => { return None; },
    };
    proof {
        assert(ac@.subrange(c1 + 1, ac@.len() as int) =~= ac@.skip(c1 + 1));
        assert(ac@.subrange(0, c1 as int) =~= ac@.take(c1 as int));
    }
    let comp = strip_quote_marks(&trimmed_range(&ac, 0, c1));
    let id = resolve_component_id(comp.as_str(), component_ids);
    let tmp = temp_name("__ss", *counter);
    *counter = *counter + 1;
    let mut out = String::new();
    push_bind_tmp(&mut out, &tmp, &value);
    push_str(&mut out, "__volki_xstate_set_str(");
    push_decimal(&mut out, id as usize);
    push_str(&mut out, ", ");
    push_str(&mut out, slot.as_str());
    push_str(&mut out, ", ");
    push_str(&mut out, tmp.as_str());
    push_str(&mut out, ".as_ptr() as i32, ");
    push_str(&mut out, tmp.as_str());
    push_str(&mut out, ".len() as i32);");
    Some(out)
}

/// Rewrites `let x = <pat>arg);` into `let x = <ext>(ptr, len);`
/// (`ptr_len_let_rewrite`).
fn ptr_len_let(line: &str, pat: &str, tmp: &str, ext: &str) -> (r: Option<String>)
    requires
        pat@.len() >= 1,
    ensures
        opt_text(r) == ptr_len_let_rewrite(line@, pat@, tmp@, ext@),
{
    let s = chars_of(line);
    let g = match find_at(&s, pat, 0) {
        Some(g) => g,
        None => { return None; },
    };
    let var = match let_var_of(&s, g) {
        Some(v) => v,
        None => { return None; },
    };
    let (st, e) = match call_span_of(&s, pat) {
        Some(p) => p,
        None => { return None; },
    };
    let arg = trimmed_range(&s, st, e);
    let mut out = String::new();
    if starts_quoted(&arg) {
        push_str(&mut out, "let ");
        push_str(&mut out, tmp);
        push_str(&mut out, " = \"");
        push_str(&mut out, unquote(&arg).as_str());
        push_str(&mut out, "\";\n");
        push_str(&mut out, "let ");
        push_str(&mut out, var.as_str());
        push_str(&mut out, " = ");
        push_str(&mut out, ext);
        push_str(&mut out, "(");
        push_str(&mut out, tmp);
        push_str(&mut out, ".as_ptr() as i32, ");
        push_str(&mut out, tmp);
        push_str(&mut out, ".len() as i32);");
    } else {
        push_str(&mut out, "let ");
        push_str(&mut out, var.as_str());
        push_str(&mut out, " = ");
        push_str(&mut out, ext);
        push_str(&mut out, "(");
        push_str(&mut out, arg.as_str());
        push_str(&mut out, ".as_ptr() as i32, ");
        push_str(&mut out, arg.as_str());
        push_str(&mut out, ".len() as i32);");
    }
    Some(out)
}

/// Rewrites `let x = dom::create(tag);` (`ptr_len_let_rewrite` with `__ct`).
pub fn transform_dom_create(line: &str, _counter: &mut u32) -> (r: Option<String>)
    ensures
        opt_text(r) == ptr_len_let_rewrite(line@, "dom::create("@, "__ct"@, "__volki_dom_create"@),
        *final(_counter) == *old(_counter),
{
    proof { reveal_strlit("dom::create("); }
    ptr_len_let(line, "dom::create(", "__ct", "__volki_dom_create")
}

/// Rewrites `let n = dom::query_all_count(sel);` (`ptr_len_let_rewrite` with `__qac`).
pub fn transform_dom_query_all_count(line: &str, _counter: &mut u32) -> (r: Option<String>)
    ensures
        opt_text(r) == ptr_len_let_rewrite(line@, "dom::query_all_count("@, "__qac"@, "__volki_dom_query_all_count"@),
        *final(_counter) == *old(_counter),
{
    proof { reveal_strlit("dom::query_all_count("); }
    ptr_len_let(line, "dom::query_all_count(", "__qac", "__volki_dom_query_all_count")
}

/// Rewrites `dom::append(parent, child);` (`dom_append_rewrite`).
pub fn transform_dom_append(line: &str) -> (r: Option<String>)
    ensures
        opt_text(r) == dom_append_rewrite(line@),
{
    let s = chars_of(line);
    proof { reveal_strlit("dom::append("); }
    let (st, e) = match call_span_of(&s, "dom::append(") {
        Some(p) => p,
        None => { return None; },
    };
    let (parent, child) = match comma_split(&s, st, e) {
        Some(p) => p,
        None => { return None; },
    };
    let mut out = String::new();
    push_str(&mut out, "__volki_dom_append(");
    push_str(&mut out, parent.as_str());
    push_str(&mut out, ", ");
    push_str(&mut out, child.as_str());
    push_str(&mut out, ");");
    Some(out)
}

/// Rewrites `dom::remove(handle);` (`dom_remove_rewrite`).
pub fn transform_dom_remove(line: &str) -> (r: Option<String>)
    ensures
        opt_text(r) == dom_remove_rewrite(line@),
{
    let s = chars_of(line);
    proof { reveal_strlit("dom::remove("); }
    let (st, e) = match call_span_of(&s, "dom::remove(") {
        Some(p) => p,
        None => { return None; },
    };
    let handle = trimmed_range(&s, st, e);
    let mut out = String::new();
    push_str(&mut out, "__volki_dom_remove(");
    push_str(&mut out, handle.as_str());
    push_str(&mut out, ");");
    Some(out)
}

/// Rewrites `dom::set_html(handle, html);` through the next temporary
/// `__h<counter>` (`dom_set_html_rewrite`).
pub fn transform_dom_set_html(line: &str, counter: &mut u32) -> (r: Option<String>)
    requires
        *old(counter) < u32::MAX,
    ensures
        opt_text(r) == dom_set_html_rewrite(line@, *old(counter) as nat),
        r is Some ==> *final(counter) == *old(counter) + 1,
        r is None ==> *final(counter) == *old(counter),
{
    let s = chars_of(line);
    proof { reveal_strlit("dom::set_html("); }
    let (st, e) = match call_span_of(&s, "dom::set_html(") {
        Some(p) => p,
        None => { return None; },
    };
    let (handle, html) = match comma_split(&s, st, e) {
        Some(p) => p,
        None => { return None; },
    };
    let tmp = temp_name("__h", *counter);
    *counter = *counter + 1;
    let mut out = String::new();
    push_bind_tmp(&mut out, &tmp, &html);
    push_str(&mut out, "__volki_dom_set_html(");
    push_str(&mut out, handle.as_str());
    push_str(&mut out, ", ");
    push_str(&mut out, tmp.as_str());
    push_str(&mut out, ".as_ptr() as i32, ");
    push_str(&mut out, tmp.as_str());
    push_str(&mut out, ".len() as i32);");
    Some(out)
}

/// Rewrites `let x = dom::query_all_get(sel, i);` (`query_all_get_rewrite`).
pub fn transform_dom_query_all_get(line: &str, _counter: &mut u32) -> (r: Option<String>)
    ensures
        opt_text(r) == query_all_get_rewrite(line@),
        *final(_counter) == *old(_counter),
{
    let s = chars_of(line);
    proof { reveal_strlit("dom::query_all_get("); }
    let g = match find_at(&s, "dom::query_all_get(", 0) {
        Some(g) => g,
        None => { return None; },
    };
    let var = match let_var_of(&s, g) {
        Some(v) => v,
        None => { return None; },
    };
    let (st, e) = match call_span_of(&s, "dom::query_all_get(") {
        Some(p) => p,
        None => { return None; },
    };
    let (sel, idx) = match comma_split(&s, st, e) {
        Some(p) => p,
        None => { return None; },
    };
    let mut out = String::new();
    if starts_quoted(&sel) {
        push_str(&mut out, "let __qag = \"");
        push_str(&mut out, unquote(&sel).as_str());
        push_str(&mut out, "\";\n");
        push_str(&mut out, "let ");
        push_str(&mut out, var.as_str());
        push_str(&mut out, " = __volki_dom_query_all_get(__qag.as_ptr() as i32, __qag.len() as i32, ");
        push_str(&mut out, idx.as_str());
        push_str(&mut out, ");");
    } else {
        push_str(&mut out, "let ");
        push_str(&mut out, var.as_str());
        push_str(&mut out, " = __volki_dom_query_all_get(");
        push_str(&mut out, sel.as_str());
        push_str(&mut out, ".as_ptr() as i32, ");
        push_str(&mut out, sel.as_str());
        push_str(&mut out, ".len() as i32, ");
        push_str(&mut out, idx.as_str());
        push_str(&mut out, ");");
    }
    Some(out)
}

/// Rewrites `obj.set_attr(name, value);` through the temporaries `__n<counter>`
/// and `__v<counter>` (`set_attr_rewrite`).
pub fn transform_set_attr(line: &str, counter: &mut u32) -> (r: Option<String>)
    requires
        *old(counter) < u32::MAX,
    ensures
        opt_text(r) == set_attr_rewrite(line@, *old(counter) as nat),
        r is Some ==> *final(counter) == *old(counter) + 1,
        r is None ==> *final(counter) == *old(counter),
{
    let s = chars_of(line);
    proof { reveal_strlit(".set_attr("); }
    let m = match find_at(&s, ".set_attr(", 0) {
        Some(m) => m,
        None => { return None; },
    };
    let obj = trimmed_range(&s, 0, m);
    proof { assert(s@.subrange(0, m as int) =~= s@.take(m as int)); }
    let (st, e) = match call_span_of(&s, ".set_attr(") {
        Some(p) => p,
        None => { return None; },
    };
    let (name, value) = match comma_split(&s, st, e) {
        Some(p) => p,
        None => { return None; },
    };
    let tn = temp_name("__n", *counter);
    let tv = temp_name("__v", *counter);
    *counter = *counter + 1;
    let mut out = String::new();
    push_bind_tmp(&mut out, &tn, &name);
    push_bind_tmp(&mut out, &tv, &value);
    push_str(&mut out, "__volki_dom_set_attr(");
    push_str(&mut out, obj.as_str());
    push_str(&mut out, ", ");
    push_str(&mut out, tn.as_str());
    push_str(&mut out, ".as_ptr() as i32, ");
    push_str(&mut out, tn.as_str());
    push_str(&mut out, ".len() as i32, ");
    push_str(&mut out, tv.as_str());
    push_str(&mut out, ".as_ptr() as i32, ");
    push_str(&mut out, tv.as_str());
    push_str(&mut out, ".len() as i32);");
    Some(out)
}


/// Whether `s` starts with `p` (`starts`).
fn starts_text(s: &str, p: &str) -> (r: bool)
    ensures
        r == starts(s@, p@),
{
    let r = crate::text::starts_with(s, p);
    proof {
        if starts(s@, p@) {
            assert(s@.subrange(0, p@.len() as int) =~= s@.take(p@.len() as int));
        }
    }
    r
}

/// Whether all of `cs[from..]` are ASCII digits.
fn digits_from(cs: &Vec<char>, from: usize) -> (r: bool)
    requires
        from <= cs@.len(),
    ensures
        r == all_digits(cs@.skip(from as int)),
{
    let mut j = from;
    while j < cs.len()
        invariant
            from <= j <= cs@.len(),
            forall|k: int| from <= k < j ==> '0' <= #[trigger] cs@[k] <= '9',
        decreases cs@.len() - j,
    {
        let c = cs[j];
        if c < '0' || c > '9' {
            proof { assert(cs@.skip(from as int)[j - from] == cs@[j as int]); }
            return false;
        }
        j += 1;
    }
    proof {
        assert forall|k: int| 0 <= k < cs@.skip(from as int).len() implies '0' <= #[trigger] cs@.skip(from as int)[k] <= '9' by {
            assert(cs@.skip(from as int)[k] == cs@[from + k]);
        }
    }
    true
}

/// What a declaration's right-hand side says of its type (`decl_kind`).
fn decl_kind_of(rest: &str) -> (r: Option<bool>)
    ensures
        r == decl_kind(rest@),
{
    if starts_text(rest, "get_") || starts_text(rest, "state::get_i32(") || starts_text(rest, "state::get_f32(") {
        Some(true)
    } else if crate::text::contains(rest, ".get_value()") || starts_text(rest, "state::get_str(")
        || starts_text(rest, "state::fmt_") || starts_text(rest, "\"") {
        Some(false)
    } else {
        None
    }
}

/// Whether a `dom::log` argument is an i32 (`i32_arg`).
pub fn is_i32_arg(arg: &str, body: &str) -> (r: bool)
    ensures
        r == i32_arg(arg@, body@),
{
    let ac = chars_of(arg);
    let mut k: usize = 0;
    proof { assert(ac@.skip(0) =~= ac@); }
    while k < ac.len() && ac[k] == '-'
        invariant
            ac@ == arg@,
            k <= ac@.len(),
            strip_minus(ac@.skip(k as int)) == strip_minus(arg@),
        decreases ac@.len() - k,
    {
        proof { assert(ac@.skip(k as int).skip(1) =~= ac@.skip(k + 1)); }
        k += 1;
    }
    proof { assert(strip_minus(ac@.skip(k as int)) == ac@.skip(k as int)); }
    if k < ac.len() && digits_from(&ac, k) {
        return true;
    }
    if crate::text::contains(arg, " + ") || crate::text::contains(arg, " - ") || crate::text::contains(arg, " * ")
        || crate::text::contains(arg, " / ") || crate::text::contains(arg, " % ") {
        return true;
    }
    if starts_text(arg, "get_") && ac.len() > 0 && ac[ac.len() - 1] == ')' {
        return true;
    }
    let lines = crate::compiler::semantic::pieces_by_char(body, '\n');
    let ghost ls = crate::compiler::semantic::texts(lines@);
    let mut pat = String::new();
    push_str(&mut pat, "let ");
    push_str(&mut pat, arg);
    push_str(&mut pat, " = ");
    let plen = chars_of(pat.as_str()).len();
    let mut i: usize = 0;
    while i < lines.len()
        invariant
            ls == crate::compiler::semantic::texts(lines@),
            ls == crate::compiler::semantic::char_pieces(body@, '\n', 0, 0),
            !i32_shape(arg@),
            i <= lines@.len(),
            pat@ == "let "@ + arg@ + " = "@,
            plen == pat@.len(),
            decl_verdict(ls, arg@, i as int) == decl_verdict(ls, arg@, 0),
        decreases lines@.len() - i,
    {
        let bt = trim_str(lines[i].as_str());
        proof { assert(ls[i as int] == lines@[i as int]@); }
        if starts_text(bt.as_str(), pat.as_str()) {
            let bc = chars_of(bt.as_str());
            let rest = string_of(&bc, plen, bc.len());
            proof { assert(rest@ =~= bt@.skip(plen as int)); }
            match decl_kind_of(rest.as_str()) {
                Some(v) => {
                    proof { assert(decl_verdict(ls, arg@, i as int) == Some(v)); }
                    return v;
                },
                None => {},
            }
        }
        i += 1;
    }
    let mut p1 = String::new();
    push_str(&mut p1, "let (");
    push_str(&mut p1, arg);
    push_str(&mut p1, ",");
    let mut p2 = String::new();
    push_str(&mut p2, "let (");
    push_str(&mut p2, arg);
    push_str(&mut p2, " ,");
    let mut i: usize = 0;
    while i < lines.len()
        invariant
            ls == crate::compiler::semantic::texts(lines@),
            ls == crate::compiler::semantic::char_pieces(body@, '\n', 0, 0),
            decl_verdict(ls, arg@, 0) is None,
            !i32_shape(arg@),
            i <= lines@.len(),
            p1@ == "let ("@ + arg@ + ","@,
            p2@ == "let ("@ + arg@ + " ,"@,
            forall|j: int| 0 <= j < i ==> !tuple_decl_line(trim_text(#[trigger] ls[j]), arg@),
        decreases lines@.len() - i,
    {
        let bt = trim_str(lines[i].as_str());
        proof { assert(ls[i as int] == lines@[i as int]@); }
        if (starts_text(bt.as_str(), p1.as_str()) || starts_text(bt.as_str(), p2.as_str()))
            && crate::text::contains(bt.as_str(), "use_state(")
            && (crate::text::contains(bt.as_str(), "_i32") || crate::text::contains(bt.as_str(), "_f32")) {
            proof { assert(tuple_decl_line(trim_text(ls[i as int]), arg@)); }
            return true;
        }
        i += 1;
    }
    false
}

/// Rewrites `dom::log(arg);` (`dom_log_rewrite`); the counter numbers the
/// temporary of a literal.
pub fn transform_dom_log(line: &str, counter: &mut u32, body: &str) -> (r: Option<String>)
    requires
        *old(counter) < u32::MAX,
    ensures
        opt_text(r) == dom_log_rewrite(line@, *old(counter) as nat, body@),
        r is Some ==> *final(counter) == *old(counter) + 1,
        r is None ==> *final(counter) == *old(counter),
{
    let s = chars_of(line);
    proof { reveal_strlit("dom::log("); }
    let (st, e) = match call_span_of(&s, "dom::log(") {
        Some(p) => p,
        None => { return None; },
    };
    let arg = trimmed_range(&s, st, e);
    let tmp = temp_name("__l", *counter);
    *counter = *counter + 1;
    let mut out = String::new();
    if starts_quoted(&arg) {
        push_str(&mut out, "let ");
        push_str(&mut out, tmp.as_str());
        push_str(&mut out, " = \"");
        push_str(&mut out, unquote(&arg).as_str());
        push_str(&mut out, "\";\n");
        push_str(&mut out, "__volki_log_str(");
        push_str(&mut out, tmp.as_str());
        push_str(&mut out, ");");
    } else if is_i32_arg(arg.as_str(), body) {
        push_str(&mut out, "__volki_log_i32(");
        push_str(&mut out, arg.as_str());
        push_str(&mut out, ");");
    } else {
        push_str(&mut out, "__volki_log_str(");
        push_str(&mut out, arg.as_str());
        push_str(&mut out, ");");
    }
    Some(out)
}


/// A text split at `c` has at most one more piece than the text has characters.
pub proof fn lemma_char_pieces_len(s: Seq<char>, c: char, start: int, i: int)
    requires
        0 <= start <= i <= s.len(),
    ensures
        char_pieces(s, c, start, i).len() <= s.len() - i + 1,
    decreases s.len() - i,
{
    if i < s.len() {
        if s[i] == c {
            lemma_char_pieces_len(s, c, i + 1, i + 1);
        } else {
            lemma_char_pieces_len(s, c, start, i + 1);
        }
    }
}

/// One trimmed line of a Client body rewritten (`client_line`); the counter
/// numbers the temporaries.
fn client_line_of(t: &str, component_ids: &[(String, u32)], counter: &mut u32, body: &str) -> (r: String)
    requires
        *old(counter) < u32::MAX,
    ensures
        (r@, *final(counter) as nat) == client_line(t@, component_ids@, *old(counter) as nat, body@),
        *final(counter) <= *old(counter) + 1,
{
    proof { reveal(client_line); }
    match transform_ref_get(t) {
        Some(x) => { return x; },
        None => {},
    }
    match transform_ref_set(t) {
        Some(x) => { return x; },
        None => {},
    }
    match transform_state_get_str(t, component_ids) {
        Some(x) => { return x; },
        None => {},
    }
    match transform_state_set_str(t, component_ids, counter) {
        Some(x) => { return x; },
        None => {},
    }
    match transform_state_get(t, component_ids) {
        Some(x) => { return x; },
        None => {},
    }
    match transform_state_set(t, component_ids) {
        Some(x) => { return x; },
        None => {},
    }
    dom_line_of(t, counter, body)
}

/// One trimmed line rewritten by the DOM rules (`dom_line`); the counter
/// numbers the temporaries.
fn dom_line_of(t: &str, counter: &mut u32, body: &str) -> (r: String)
    requires
        *old(counter) < u32::MAX,
    ensures
        (r@, *final(counter) as nat) == dom_line(t@, *old(counter) as nat, body@),
        *final(counter) <= *old(counter) + 1,
{
    proof { reveal(dom_line); }
    proof {
        reveal_strlit(".set_text(");
        reveal_strlit(".add_class(");
        reveal_strlit(".remove_class(");
        reveal_strlit(".toggle_class(");
        reveal_strlit(".remove_attr(");
    }
    match transform_dom_create(t, counter) {
        Some(x) => { return x; },
        None => {},
    }
    match transform_dom_append(t) {
        Some(x) => { return x; },
        None => {},
    }
    match transform_dom_remove(t) {
        Some(x) => { return x; },
        None => {},
    }
    match transform_dom_set_html(t, counter) {
        Some(x) => { return x; },
        None => {},
    }
    match transform_dom_query_all_count(t, counter) {
        Some(x) => { return x; },
        None => {},
    }
    match transform_dom_query_all_get(t, counter) {
        Some(x) => { return x; },
        None => {},
    }
    match transform_dom_query(t, counter) {
        Some(x) => { return x; },
        None => {},
    }
    match transform_get_value(t) {
        Some(x) => { return x; },
        None => {},
    }
    match transform_method_call(t, ".set_text(", "__volki_dom_set_text", counter) {
        Some(x) => { return x; },
        None => {},
    }
    match transform_method_call(t, ".add_class(", "__volki_dom_add_class", counter) {
        Some(x) => { return x; },
        None => {},
    }
    match transform_method_call(t, ".remove_class(", "__volki_dom_remove_class", counter) {
        Some(x) => { return x; },
        None => {},
    }
    match transform_method_call(t, ".toggle_class(", "__volki_dom_toggle_class", counter) {
        Some(x) => { return x; },
        None => {},
    }
    match transform_method_call(t, ".remove_attr(", "__volki_dom_remove_attr", counter) {
        Some(x) => { return x; },
        None => {},
    }
    match transform_set_attr(t, counter) {
        Some(x) => { return x; },
        None => {},
    }
    match transform_dom_log(t, counter, body) {
        Some(x) => { return x; },
        None => {},
    }
    let mut same = String::new();
    push_str(&mut same, t);
    same
}

/// Rewrites a Client body line by line into WASM extern calls (`client_fold`):
/// lines are trimmed, empty lines and `extern "C" { ... }` blocks dropped, and
/// each other line rewritten by the first rule that applies.
pub fn transform_client_body(body: &str, component_ids: &[(String, u32)]) -> (r: String)
    requires
        body@.len() < u32::MAX,
    ensures
        r@ == client_fold(crate::compiler::semantic::char_pieces(body@, '\n', 0, 0), component_ids@, body@).0,
{
    let lines = crate::compiler::semantic::pieces_by_char(body, '\n');
    let ghost ls = crate::compiler::semantic::texts(lines@);
    proof {
        lemma_char_pieces_len(body@, '\n', 0, 0);
        reveal_strlit("{");
        reveal_strlit("}");
        assert("{"@ =~= seq!['{']);
        assert("}"@ =~= seq!['}']);
        assert(ls.take(0) =~= Seq::<Seq<char>>::empty());
    }
    let mut out = String::new();
    let mut counter: u32 = 0;
    let mut in_extern = false;
    let mut k: usize = 0;
    while k < lines.len()
        invariant
            ls == crate::compiler::semantic::texts(lines@),
            ls == crate::compiler::semantic::char_pieces(body@, '\n', 0, 0),
            lines@.len() <= body@.len() + 1,
            body@.len() < u32::MAX,
            k <= lines@.len(),
            counter <= k,
            "{"@ == seq!['{'],
            "}"@ == seq!['}'],
            client_fold(ls.take(k as int), component_ids@, body@) == (out@, counter as nat, in_extern),
        decreases lines@.len() - k,
    {
        let t = trim_str(lines[k].as_str());
        proof {
            assert(ls.take(k + 1).drop_last() =~= ls.take(k as int));
            assert(ls.take(k + 1).last() == lines@[k as int]@);
        }
        let tc = chars_of(t.as_str());
        if tc.len() == 0 {
        } else if starts_text(t.as_str(), "extern ") && find_at(&tc, "{", 0).is_some() {
            in_extern = true;
        } else if in_extern {
            if find_at(&tc, "}", 0).is_some() {
                in_extern = false;
            }
        } else {
            let step = client_line_of(t.as_str(), component_ids, &mut counter, body);
            push_str(&mut out, step.as_str());
            push_str(&mut out, "\n");
        }
        k += 1;
    }
    proof { assert(ls.take(lines@.len() as int) =~= ls); }
    out
}


// ── Component bodies ───────────────────────────────────────────────────

/// `s` without leading copies of `p` (repeatedly).
pub open spec fn strip_leading(s: Seq<char>, p: Seq<char>) -> Seq<char>
    decreases s.len(),
{
    if p.len() > 0 && starts(s, p) { strip_leading(s.skip(p.len() as int), p) } else { s }
}

/// Each text trimmed.
pub open spec fn trim_all(ps: Seq<Seq<char>>) -> Seq<Seq<char>> {
    ps.map_values(|d: Seq<char>| trim_text(d))
}

/// The trimmed items of a comma list (none for an empty list).
pub open spec fn deps_of(inner: Seq<char>) -> Seq<Seq<char>> {
    if inner.len() == 0 { Seq::empty() } else { trim_all(char_pieces(inner, ',', 0, 0)) }
}

/// One `<f>(slot, i, dep);` line per dependency, in order.
pub open spec fn dep_calls(f: Seq<char>, slot: nat, deps: Seq<Seq<char>>) -> Seq<char>
    decreases deps.len(),
{
    if deps.len() == 0 {
        Seq::empty()
    } else {
        dep_calls(f, slot, deps.drop_last()) + f + "("@ + decimal(slot) + ", "@ + decimal((deps.len() - 1) as nat) + ", "@
            + deps.last() + ");\n"@
    }
}

/// `let x = use_memo_i32(expr, &[deps]);` (or `use_memo_f32`) as a memo slot
/// `slot` that recomputes `expr` when a dependency changed.
pub open spec fn use_memo_rewrite(line: Seq<char>, slot: nat) -> Option<Seq<char>> {
    let mi = find_text(line, "use_memo_i32("@);
    let mf = find_text(line, "use_memo_f32("@);
    if mi < 0 && mf < 0 {
        None
    } else {
        let g = if mi >= 0 { mi } else { mf };
        let (store, load) = if mi >= 0 {
            ("__volki_memo_store_i32"@, "__volki_memo_load_i32"@)
        } else {
            ("__volki_memo_store_f32"@, "__volki_memo_load_f32"@)
        };
        match let_var(line.take(g)) {
            None => None,
            Some(var) => {
                let e = closing_paren(line, g + 13, 1);
                if e < 0 {
                    None
                } else {
                    let args = line.subrange(g + 13, e);
                    let d = find_text(args, ", &["@);
                    if d < 0 {
                        None
                    } else {
                        let part = args.skip(d + 4);
                        if !(part.len() > 0 && part.last() == ']') {
                            None
                        } else {
                            let deps = deps_of(trim_text(part.drop_last()));
                            let n = decimal(slot);
                            Some("__volki_memo_begin("@ + n + ", "@ + decimal(deps.len()) + ");\n"@
                                + dep_calls("__volki_memo_set_dep"@, slot, deps) + "let "@ + var
                                + " = if __volki_memo_changed("@ + n + ") == 1 {\n"@ + "    let __mv = "@
                                + trim_text(args.take(d)) + ";\n"@ + "    "@ + store + "("@ + n + ", __mv);\n"@
                                + "    __mv\n"@ + "} else {\n"@ + "    "@ + load + "("@ + n + ")\n"@ + "};"@)
                        }
                    }
                }
            },
        }
    }
}

/// `use_effect(&[deps]);` as the registration of effect slot `slot` and its
/// dependencies.
pub open spec fn use_effect_rewrite(line: Seq<char>, slot: nat) -> Option<Seq<char>> {
    match call_span(line, "use_effect("@) {
        None => None,
        Some((st, e)) => {
            let arg = trim_text(line.subrange(st, e));
            if !starts(arg, "&["@) {
                None
            } else {
                let rest = arg.skip(2);
                if !(rest.len() > 0 && rest.last() == ']') {
                    None
                } else {
                    let deps = deps_of(trim_text(rest.drop_last()));
                    let out = "__volki_effect_register("@ + decimal(slot) + ", "@ + decimal(deps.len()) + ");\n"@
                        + dep_calls("__volki_effect_set_dep"@, slot, deps);
                    Some(out.drop_last())
                }
            }
        },
    }
}

/// `let el = use_ref_el(sel);` as an element ref in slot `slot`.
pub open spec fn use_ref_el_rewrite(line: Seq<char>, slot: nat) -> Option<Seq<char>> {
    let g = find_text(line, "use_ref_el("@);
    if g < 0 {
        None
    } else {
        match let_var(line.take(g)) {
            None => None,
            Some(var) => match call_span(line, "use_ref_el("@) {
                None => None,
                Some((st, e)) => {
                    let arg = trim_text(line.subrange(st, e));
                    if quoted(arg) {
                        Some("let __rsel = \""@ + unquoted(arg) + "\";\n"@ + "let "@ + var + " = __volki_ref_init_el("@
                            + decimal(slot) + ", __rsel.as_ptr() as i32, __rsel.len() as i32);"@)
                    } else {
                        Some("let "@ + var + " = __volki_ref_init_el("@ + decimal(slot) + ", "@ + arg + ".as_ptr() as i32, "@
                            + arg + ".len() as i32);"@)
                    }
                },
            },
        }
    }
}

/// The initializer and initial value of a `use_ref` argument: `_f32` picks the
/// f32 ref, anything else is an i32 (an `_i32` suffix dropped).
pub open spec fn ref_init(arg: Seq<char>) -> (Seq<char>, Seq<char>) {
    if arg.len() >= 4 && arg.skip(arg.len() - 4) == "_i32"@ {
        ("__volki_ref_init_i32"@, arg.take(arg.len() - 4))
    } else if arg.len() >= 4 && arg.skip(arg.len() - 4) == "_f32"@ {
        ("__volki_ref_init_f32"@, arg.take(arg.len() - 4))
    } else {
        ("__volki_ref_init_i32"@, arg)
    }
}

/// `let r = use_ref(init);` as a ref in slot `slot`.
pub open spec fn use_ref_rewrite(line: Seq<char>, slot: nat) -> Option<Seq<char>> {
    let g = find_text(line, "use_ref("@);
    if g < 0 {
        None
    } else {
        match let_var(line.take(g)) {
            None => None,
            Some(var) => match call_span(line, "use_ref("@) {
                None => None,
                Some((st, e)) => {
                    let init = ref_init(trim_text(line.subrange(st, e)));
                    Some("let "@ + var + " = "@ + init.0 + "("@ + decimal(slot) + ", "@ + init.1 + ");"@)
                },
            },
        }
    }
}

/// `let s = use_state("text");` as string state in slot `slot`.
pub open spec fn use_state_str_rewrite(line: Seq<char>, slot: nat) -> Option<Seq<char>> {
    let g = find_text(line, "use_state("@);
    if g < 0 {
        None
    } else {
        let after = line.skip(g + 10);
        let lo = crate::text::trim_lo(after, 0, after.len() as int);
        if !(lo < after.len() && after[lo] == '"') {
            None
        } else {
            match let_var(line.take(g)) {
                None => None,
                Some(var) => {
                    let e = closing_paren(line, g + 10, 1);
                    if e < 0 {
                        None
                    } else {
                        let n = decimal(slot);
                        Some("let __sinit"@ + n + " = \""@ + unquoted(trim_text(line.subrange(g + 10, e))) + "\";\n"@
                            + "let __sptr = __volki_state_init_str("@ + n + ", __sinit"@ + n + ".as_ptr() as i32, __sinit"@ + n
                            + ".len() as i32);\n"@ + "let __slen = __volki_state_init_str_len("@ + n + ");\n"@ + "let "@ + var
                            + " = core::str::from_utf8_unchecked(core::slice::from_raw_parts(__sptr as *const u8, __slen as usize));"@)
                    }
                },
            }
        }
    }
}

/// The state variable and setter of a `let (state, setter) =` prefix.
pub open spec fn tuple_vars(before: Seq<char>) -> Option<(Seq<char>, Seq<char>)> {
    let b = trim_text(before);
    if !(starts(b, "let ("@) && b.len() > 0 && b.last() == '=') {
        None
    } else {
        let inner = trim_text(strip_end_char(strip_leading(b, "let ("@), '='));
        if !(inner.len() > 0 && inner.last() == ')') {
            None
        } else {
            match comma_parts(inner.drop_last()) {
                None => None,
                Some((a, b2)) => if a.len() == 0 || b2.len() == 0 { None } else { Some((a, b2)) },
            }
        }
    }
}

/// The state initializer, setter extern, initial value and setter type of a
/// `use_state` argument.
pub open spec fn tuple_init(arg: Seq<char>) -> (Seq<char>, Seq<char>, Seq<char>, Seq<char>) {
    let init = state_init(arg);
    if init.0 == "__volki_state_init_f32"@ {
        (init.0, "__volki_xstate_set_f32"@, init.1, "f32"@)
    } else {
        (init.0, "__volki_xstate_set_i32"@, init.1, "i32"@)
    }
}

/// `let (v, set_v) = use_state(init);` as state slot `slot` of component `cid`
/// and a setter closure.
pub open spec fn use_state_tuple_rewrite(line: Seq<char>, slot: nat, cid: nat) -> Option<Seq<char>> {
    let g = find_text(line, "use_state("@);
    if g < 0 {
        None
    } else {
        match tuple_vars(line.take(g)) {
            None => None,
            Some((state_var, setter_var)) => {
                let e = closing_paren(line, g + 10, 1);
                if e < 0 {
                    None
                } else {
                    let t = tuple_init(trim_text(line.subrange(g + 10, e)));
                    let n = decimal(slot);
                    Some("let "@ + state_var + " = "@ + t.0 + "("@ + n + ", "@ + t.2 + ");\n"@ + "let "@ + setter_var
                        + " = |value: "@ + t.3 + "| {\n"@ + "    "@ + t.1 + "("@ + decimal(cid) + ", "@ + n + ", value);\n"@
                        + "};"@)
                }
            },
        }
    }
}

/// A line with `state::fmt_i32(v)` (or `fmt_f32`): a buffer, the formatting
/// call, and the text set or the bare result, numbered by `fc`.
pub open spec fn state_fmt_rewrite(line: Seq<char>, fc: nat) -> Option<Seq<char>> {
    let fi = find_text(line, "state::fmt_i32("@);
    let ff = find_text(line, "state::fmt_f32("@);
    if fi < 0 && ff < 0 {
        None
    } else {
        let g = if fi >= 0 { fi } else { ff };
        let (f, size) = if fi >= 0 { ("__volki_state_fmt_i32"@, "20"@) } else { ("__volki_state_fmt_f32"@, "32"@) };
        let e = closing_paren(line, g + 15, 1);
        if e < 0 {
            None
        } else {
            let buf = "__fb"@ + decimal(fc);
            let len = "__fl"@ + decimal(fc);
            let calls = "let "@ + buf + " = __volki_alloc("@ + size + ");\n"@ + "let "@ + len + " = "@ + f + "("@
                + trim_text(line.subrange(g + 15, e)) + ", "@ + buf + ", "@ + size + ");\n"@;
            let m = find_text(line, ".set_text("@);
            if m >= 0 {
                Some(calls + "__volki_dom_set_text("@ + strip_end_char(trim_text(line.take(m)), ';') + ", "@ + buf + ", "@ + len
                    + ");"@)
            } else if starts(trim_text(line), "let "@) {
                Some(calls.drop_last())
            } else {
                Some(calls)
            }
        }
    }
}

/// The slot and temporary counters of a Component body rewrite.
pub struct BodyCounts {
    pub var: nat,
    pub slot: nat,
    pub refs: nat,
    pub effects: nat,
    pub memos: nat,
    pub fmts: nat,
}

/// One line of a Component body: the first rewrite that applies (in a fixed
/// order), or the line itself; with the counters after it.
#[verifier::opaque]
pub open spec fn component_line(t: Seq<char>, cid: nat, k: BodyCounts, body: Seq<char>) -> (Seq<char>, BodyCounts) {
    if use_memo_rewrite(t, k.memos) is Some {
        (use_memo_rewrite(t, k.memos)->0, BodyCounts { memos: k.memos + 1, ..k })
    } else if use_effect_rewrite(t, k.effects) is Some {
        (use_effect_rewrite(t, k.effects)->0, BodyCounts { effects: k.effects + 1, ..k })
    } else if use_ref_el_rewrite(t, k.refs) is Some {
        (use_ref_el_rewrite(t, k.refs)->0, BodyCounts { refs: k.refs + 1, ..k })
    } else if use_ref_rewrite(t, k.refs) is Some {
        (use_ref_rewrite(t, k.refs)->0, BodyCounts { refs: k.refs + 1, ..k })
    } else if ref_get_rewrite(t) is Some {
        (ref_get_rewrite(t)->0, k)
    } else if ref_set_rewrite(t) is Some {
        (ref_set_rewrite(t)->0, k)
    } else if use_state_str_rewrite(t, k.slot) is Some {
        (use_state_str_rewrite(t, k.slot)->0, BodyCounts { slot: k.slot + 1, ..k })
    } else if use_state_tuple_rewrite(t, k.slot, cid) is Some {
        (use_state_tuple_rewrite(t, k.slot, cid)->0, BodyCounts { slot: k.slot + 1, ..k })
    } else if use_state_rewrite(t, k.slot) is Some {
        (use_state_rewrite(t, k.slot)->0, BodyCounts { slot: k.slot + 1, ..k })
    } else if state_fmt_rewrite(t, k.fmts) is Some {
        (state_fmt_rewrite(t, k.fmts)->0, BodyCounts { fmts: k.fmts + 1, ..k })
    } else {
        let r = dom_line(t, k.var, body);
        (r.0, BodyCounts { var: r.1, ..k })
    }
}


/// A Component body rewritten line by line (lines trimmed, empty lines dropped,
/// `extern "C" { ... }` blocks skipped): output, counters and whether an extern
/// block is open.
pub open spec fn component_fold(lines: Seq<Seq<char>>, cid: nat, body: Seq<char>) -> (Seq<char>, BodyCounts, bool)
    decreases lines.len(),
{
    if lines.len() == 0 {
        (Seq::empty(), BodyCounts { var: 0, slot: 0, refs: 0, effects: 0, memos: 0, fmts: 0 }, false)
    } else {
        let prev = component_fold(lines.drop_last(), cid, body);
        let t = trim_text(lines.last());
        if t.len() == 0 {
            prev
        } else if starts(t, "extern "@) && index_of(t, '{') >= 0 {
            (prev.0, prev.1, true)
        } else if prev.2 {
            (prev.0, prev.1, index_of(t, '}') < 0)
        } else {
            let step = component_line(t, cid, prev.1, body);
            (prev.0 + step.0 + "\n"@, step.1, false)
        }
    }
}

/// `s` without leading copies of `p` (`strip_leading`).
fn strip_lead(s: &String, p: &str) -> (r: String)
    ensures
        r@ == strip_leading(s@, p@),
{
    let cs = chars_of(s.as_str());
    let pc = chars_of(p);
    let n = cs.len();
    let mut i: usize = 0;
    proof { assert(cs@.skip(0) =~= cs@); }
    while pc.len() > 0 && crate::text::chars_at(&cs, i, &pc)
        invariant
            cs@ == s@,
            pc@ == p@,
            n == cs@.len(),
            i <= n,
            strip_leading(cs@.skip(i as int), p@) == strip_leading(s@, p@),
        decreases n - i,
    {
        proof {
            assert(cs@.skip(i as int).take(p@.len() as int) =~= cs@.subrange(i as int, i + p@.len()));
            assert(cs@.skip(i as int).skip(p@.len() as int) =~= cs@.skip(i + p@.len()));
        }
        i += pc.len();
    }
    proof {
        if p@.len() > 0 && starts(cs@.skip(i as int), p@) {
            assert(cs@.skip(i as int).take(p@.len() as int) =~= cs@.subrange(i as int, i + p@.len()));
        }
        assert(cs@.subrange(i as int, n as int) =~= cs@.skip(i as int));
    }
    string_of(&cs, i, n)
}

/// The trimmed items of a comma list (`deps_of`).
fn deps_list(inner: &String) -> (r: Vec<String>)
    ensures
        crate::compiler::semantic::texts(r@) == deps_of(inner@),
{
    let mut out: Vec<String> = Vec::new();
    if inner.as_str().is_empty() {
        proof { assert(crate::compiler::semantic::texts(out@) =~= deps_of(inner@)); }
        return out;
    }
    let pieces = crate::compiler::semantic::pieces_by_char(inner.as_str(), ',');
    let ghost ps = crate::compiler::semantic::texts(pieces@);
    let mut i: usize = 0;
    while i < pieces.len()
        invariant
            ps == crate::compiler::semantic::texts(pieces@),
            i <= pieces@.len(),
            crate::compiler::semantic::texts(out@) == trim_all(ps.take(i as int)),
        decreases pieces@.len() - i,
    {
        let ghost before = crate::compiler::semantic::texts(out@);
        let item = trim_str(pieces[i].as_str());
        proof { assert(ps[i as int] == pieces@[i as int]@); }
        out.push(item);
        proof {
            assert(crate::compiler::semantic::texts(out@) =~= before.push(item@));
            assert(trim_all(ps.take(i + 1)) =~= trim_all(ps.take(i as int)).push(trim_text(ps[i as int])));
        }
        i += 1;
    }
    proof { assert(ps.take(pieces@.len() as int) =~= ps); }
    out
}

/// Appends one `<f>(slot, i, dep);` line per dependency (`dep_calls`).
fn push_dep_calls(out: &mut String, f: &str, slot: u32, deps: &Vec<String>)
    ensures
        final(out)@ == old(out)@ + dep_calls(f@, slot as nat, crate::compiler::semantic::texts(deps@)),
{
    let ghost ds = crate::compiler::semantic::texts(deps@);
    let mut i: usize = 0;
    proof { assert(ds.take(0) =~= Seq::<Seq<char>>::empty()); }
    while i < deps.len()
        invariant
            ds == crate::compiler::semantic::texts(deps@),
            i <= deps@.len(),
            out@ == old(out)@ + dep_calls(f@, slot as nat, ds.take(i as int)),
        decreases deps@.len() - i,
    {
        push_str(out, f);
        push_str(out, "(");
        push_decimal(out, slot as usize);
        push_str(out, ", ");
        push_decimal(out, i);
        push_str(out, ", ");
        push_str(out, deps[i].as_str());
        push_str(out, ");\n");
        proof {
            assert(ds.take(i + 1).drop_last() =~= ds.take(i as int));
            assert(ds.take(i + 1).last() == deps@[i as int]@);
        }
        i += 1;
    }
    proof { assert(ds.take(deps@.len() as int) =~= ds); }
}

/// `s` without its last character.
fn drop_last_char(s: &String) -> (r: String)
    requires
        s@.len() > 0,
    ensures
        r@ == s@.drop_last(),
{
    let cs = chars_of(s.as_str());
    string_of(&cs, 0, cs.len() - 1)
}

/// Rewrites `let x = use_memo_i32(expr, &[deps]);` (or `use_memo_f32`) for the
/// next memo slot, which it takes (`use_memo_rewrite`).
pub fn transform_use_memo(line: &str, memo_slot_counter: &mut u32) -> (r: Option<String>)
    requires
        *old(memo_slot_counter) < u32::MAX,
    ensures
        opt_text(r) == use_memo_rewrite(line@, *old(memo_slot_counter) as nat),
        r is Some ==> *final(memo_slot_counter) == *old(memo_slot_counter) + 1,
        r is None ==> *final(memo_slot_counter) == *old(memo_slot_counter),
{
    let s = chars_of(line);
    if s.len() < 13 {
        return None;
    }
    proof {
        reveal_strlit("use_memo_i32(");
        reveal_strlit("use_memo_f32(");
        assert("use_memo_i32("@.len() == 13);
        assert("use_memo_f32("@.len() == 13);
        reveal_strlit(", &[");
        assert(", &["@.len() == 4);
    }
    let (g, start, is_i32) = match find_at(&s, "use_memo_i32(", 0) {
        Some(g) => (g, g + 13, true),
        None => match find_at(&s, "use_memo_f32(", 0) {
            Some(g) => (g, g + 13, false),
            None => { return None; },
        },
    };
    let var = match let_var_of(&s, g) {
        Some(v) => v,
        None => { return None; },
    };
    let end = match closing_paren_at(&s, start) {
        Some(e) => e,
        None => { return None; },
    };
    let args = string_of(&s, start, end);
    let ac = chars_of(args.as_str());
    let d = match find_at(&ac, ", &[", 0) {
        Some(d) => d,
        None => { return None; },
    };
    let n = ac.len();
    let ps = d + 4;
    if !(ps < n && ac[n - 1] == ']') {
        return None;
    }
    let inner = trimmed_range(&ac, ps, n - 1);
    proof {
        assert(ac@.skip(ps as int).drop_last() =~= ac@.subrange(ps as int, n - 1));
        assert(ac@.subrange(0, d as int) =~= ac@.take(d as int));
    }
    let deps = deps_list(&inner);
    let expr = trimmed_range(&ac, 0, d);
    let slot = *memo_slot_counter;
    *memo_slot_counter = slot + 1;
    let (store, load) = if is_i32 {
        ("__volki_memo_store_i32", "__volki_memo_load_i32")
    } else {
        ("__volki_memo_store_f32", "__volki_memo_load_f32")
    };
    let mut out = String::new();
    push_str(&mut out, "__volki_memo_begin(");
    push_decimal(&mut out, slot as usize);
    push_str(&mut out, ", ");
    push_decimal(&mut out, deps.len());
    push_str(&mut out, ");\n");
    push_dep_calls(&mut out, "__volki_memo_set_dep", slot, &deps);
    push_str(&mut out, "let ");
    push_str(&mut out, var.as_str());
    push_str(&mut out, " = if __volki_memo_changed(");
    push_decimal(&mut out, slot as usize);
    push_str(&mut out, ") == 1 {\n");
    push_str(&mut out, "    let __mv = ");
    push_str(&mut out, expr.as_str());
    push_str(&mut out, ";\n");
    push_str(&mut out, "    ");
    push_str(&mut out, store);
    push_str(&mut out, "(");
    push_decimal(&mut out, slot as usize);
    push_str(&mut out, ", __mv);\n");
    push_str(&mut out, "    __mv\n");
    push_str(&mut out, "} else {\n");
    push_str(&mut out, "    ");
    push_str(&mut out, load);
    push_str(&mut out, "(");
    push_decimal(&mut out, slot as usize);
    push_str(&mut out, ")\n");
    push_str(&mut out, "};");
    Some(out)
}

/// Rewrites `use_effect(&[deps]);` for the next effect slot, which it takes
/// (`use_effect_rewrite`).
pub fn transform_use_effect(line: &str, effect_slot_counter: &mut u32) -> (r: Option<String>)
    requires
        *old(effect_slot_counter) < u32::MAX,
    ensures
        opt_text(r) == use_effect_rewrite(line@, *old(effect_slot_counter) as nat),
        r is Some ==> *final(effect_slot_counter) == *old(effect_slot_counter) + 1,
        r is None ==> *final(effect_slot_counter) == *old(effect_slot_counter),
{
    let s = chars_of(line);
    proof {
        reveal_strlit("use_effect(");
        reveal_strlit("&[");
    }
    let (st, e) = match call_span_of(&s, "use_effect(") {
        Some(p) => p,
        None => { return None; },
    };
    let arg = trimmed_range(&s, st, e);
    let ac = chars_of(arg.as_str());
    let n = ac.len();
    if !(n >= 2 && ac[0] == '&' && ac[1] == '[') {
        proof {
            if starts(arg@, "&["@) {
                assert(arg@.take(2)[0] == '&' && arg@.take(2)[1] == '[');
            }
        }
        return None;
    }
    proof { assert(arg@.take(2) =~= "&["@); }
    if !(n > 2 && ac[n - 1] == ']') {
        return None;
    }
    let inner = trimmed_range(&ac, 2, n - 1);
    proof { assert(ac@.skip(2).drop_last() =~= ac@.subrange(2, n - 1)); }
    let deps = deps_list(&inner);
    let slot = *effect_slot_counter;
    *effect_slot_counter = slot + 1;
    let mut out = String::new();
    push_str(&mut out, "__volki_effect_register(");
    push_decimal(&mut out, slot as usize);
    push_str(&mut out, ", ");
    push_decimal(&mut out, deps.len());
    push_str(&mut out, ");\n");
    push_dep_calls(&mut out, "__volki_effect_set_dep", slot, &deps);
    Some(drop_last_char(&out))
}

/// Rewrites `let el = use_ref_el(sel);` for the next ref slot, which it takes
/// (`use_ref_el_rewrite`).
pub fn transform_use_ref_el(line: &str, ref_slot_counter: &mut u32) -> (r: Option<String>)
    requires
        *old(ref_slot_counter) < u32::MAX,
    ensures
        opt_text(r) == use_ref_el_rewrite(line@, *old(ref_slot_counter) as nat),
        r is Some ==> *final(ref_slot_counter) == *old(ref_slot_counter) + 1,
        r is None ==> *final(ref_slot_counter) == *old(ref_slot_counter),
{
    let s = chars_of(line);
    proof { reveal_strlit("use_ref_el("); }
    let g = match find_at(&s, "use_ref_el(", 0) {
        Some(g) => g,
        None => { return None; },
    };
    let var = match let_var_of(&s, g) {
        Some(v) => v,
        None => { return None; },
    };
    let (st, e) = match call_span_of(&s, "use_ref_el(") {
        Some(p) => p,
        None => { return None; },
    };
    let arg = trimmed_range(&s, st, e);
    let slot = *ref_slot_counter;
    *ref_slot_counter = slot + 1;
    let mut out = String::new();
    if starts_quoted(&arg) {
        push_str(&mut out, "let __rsel = \"");
        push_str(&mut out, unquote(&arg).as_str());
        push_str(&mut out, "\";\n");
        push_str(&mut out, "let ");
        push_str(&mut out, var.as_str());
        push_str(&mut out, " = __volki_ref_init_el(");
        push_decimal(&mut out, slot as usize);
        push_str(&mut out, ", __rsel.as_ptr() as i32, __rsel.len() as i32);");
    } else {
        push_str(&mut out, "let ");
        push_str(&mut out, var.as_str());
        push_str(&mut out, " = __volki_ref_init_el(");
        push_decimal(&mut out, slot as usize);
        push_str(&mut out, ", ");
        push_str(&mut out, arg.as_str());
        push_str(&mut out, ".as_ptr() as i32, ");
        push_str(&mut out, arg.as_str());
        push_str(&mut out, ".len() as i32);");
    }
    Some(out)
}

/// Rewrites `let r = use_ref(init);` for the next ref slot, which it takes
/// (`use_ref_rewrite`).
pub fn transform_use_ref(line: &str, ref_slot_counter: &mut u32) -> (r: Option<String>)
    requires
        *old(ref_slot_counter) < u32::MAX,
    ensures
        opt_text(r) == use_ref_rewrite(line@, *old(ref_slot_counter) as nat),
        r is Some ==> *final(ref_slot_counter) == *old(ref_slot_counter) + 1,
        r is None ==> *final(ref_slot_counter) == *old(ref_slot_counter),
{
    let s = chars_of(line);
    proof {
        reveal_strlit("use_ref(");
        reveal_strlit("_i32");
        reveal_strlit("_f32");
    }
    let g = match find_at(&s, "use_ref(", 0) {
        Some(g) => g,
        None => { return None; },
    };
    let var = match let_var_of(&s, g) {
        Some(v) => v,
        None => { return None; },
    };
    let (st, e) = match call_span_of(&s, "use_ref(") {
        Some(p) => p,
        None => { return None; },
    };
    let arg = trimmed_range(&s, st, e);
    let slot = *ref_slot_counter;
    *ref_slot_counter = slot + 1;
    let ac = chars_of(arg.as_str());
    let (ext, clean): (&str, String) = if ends_with4(&ac, "_i32") {
        ("__volki_ref_init_i32", string_of(&ac, 0, ac.len() - 4))
    } else if ends_with4(&ac, "_f32") {
        ("__volki_ref_init_f32", string_of(&ac, 0, ac.len() - 4))
    } else {
        ("__volki_ref_init_i32", arg)
    };
    proof {
        let init = ref_init(trim_text(s@.subrange(st as int, e as int)));
        assert(ext@ == init.0);
        assert(clean@ =~= init.1);
    }
    let mut out = String::new();
    push_str(&mut out, "let ");
    push_str(&mut out, var.as_str());
    push_str(&mut out, " = ");
    push_str(&mut out, ext);
    push_str(&mut out, "(");
    push_decimal(&mut out, slot as usize);
    push_str(&mut out, ", ");
    push_str(&mut out, clean.as_str());
    push_str(&mut out, ");");
    Some(out)
}


/// Rewrites `let s = use_state("text");` for the next state slot, which it takes
/// (`use_state_str_rewrite`).
pub fn transform_use_state_str(line: &str, slot_counter: &mut u32) -> (r: Option<String>)
    requires
        *old(slot_counter) < u32::MAX,
    ensures
        opt_text(r) == use_state_str_rewrite(line@, *old(slot_counter) as nat),
        r is Some ==> *final(slot_counter) == *old(slot_counter) + 1,
        r is None ==> *final(slot_counter) == *old(slot_counter),
{
    let s = chars_of(line);
    proof {
        reveal_strlit("use_state(");
        assert("use_state("@.len() == 10);
    }
    let g = match find_at(&s, "use_state(", 0) {
        Some(g) => g,
        None => { return None; },
    };
    let n = s.len();
    proof { assert(g + 10 <= n); }
    let start = g + 10;
    let after = string_of(&s, start, s.len());
    let ac = chars_of(after.as_str());
    proof { assert(ac@ =~= s@.skip(start as int)); }
    let (lo, _hi) = crate::text::trim_bounds(&ac, 0, ac.len());
    if !(lo < ac.len() && ac[lo] == '"') {
        return None;
    }
    let var = match let_var_of(&s, g) {
        Some(v) => v,
        None => { return None; },
    };
    let end = match closing_paren_at(&s, start) {
        Some(e) => e,
        None => { return None; },
    };
    let arg = trimmed_range(&s, start, end);
    let slot = *slot_counter;
    *slot_counter = slot + 1;
    let mut out = String::new();
    push_str(&mut out, "let __sinit");
    push_decimal(&mut out, slot as usize);
    push_str(&mut out, " = \"");
    push_str(&mut out, unquote(&arg).as_str());
    push_str(&mut out, "\";\n");
    push_str(&mut out, "let __sptr = __volki_state_init_str(");
    push_decimal(&mut out, slot as usize);
    push_str(&mut out, ", __sinit");
    push_decimal(&mut out, slot as usize);
    push_str(&mut out, ".as_ptr() as i32, __sinit");
    push_decimal(&mut out, slot as usize);
    push_str(&mut out, ".len() as i32);\n");
    push_str(&mut out, "let __slen = __volki_state_init_str_len(");
    push_decimal(&mut out, slot as usize);
    push_str(&mut out, ");\n");
    push_str(&mut out, "let ");
    push_str(&mut out, var.as_str());
    push_str(&mut out, " = core::str::from_utf8_unchecked(core::slice::from_raw_parts(__sptr as *const u8, __slen as usize));");
    Some(out)
}

/// The state variable and setter of a `let (state, setter) =` prefix
/// `s[..end]` (`tuple_vars`).
fn tuple_vars_of(s: &Vec<char>, end: usize) -> (r: Option<(String, String)>)
    requires
        end <= s@.len(),
    ensures
        match r {
            Some((a, b)) => tuple_vars(s@.take(end as int)) == Some((a@, b@)),
            None => tuple_vars(s@.take(end as int)) is None,
        },
{
    proof {
        reveal_strlit("let (");
        assert(s@.subrange(0, end as int) =~= s@.take(end as int));
    }
    let before = trimmed_range(s, 0, end);
    let bc = chars_of(before.as_str());
    if !(starts_text(before.as_str(), "let (") && bc.len() > 0 && bc[bc.len() - 1] == '=') {
        return None;
    }
    let inner = trim_str(strip_end(&strip_lead(&before, "let ("), '=').as_str());
    let ic = chars_of(inner.as_str());
    if !(ic.len() > 0 && ic[ic.len() - 1] == ')') {
        return None;
    }
    proof { assert(ic@.subrange(0, ic@.len() - 1) =~= inner@.drop_last()); }
    let (a, b) = match comma_split(&ic, 0, ic.len() - 1) {
        Some(p) => p,
        None => { return None; },
    };
    if a.as_str().is_empty() || b.as_str().is_empty() {
        return None;
    }
    Some((a, b))
}

/// Rewrites `let (v, set_v) = use_state(init);` for the next state slot, which
/// it takes, with a setter for component `component_id`
/// (`use_state_tuple_rewrite`).
pub fn transform_use_state_tuple(line: &str, slot_counter: &mut u32, component_id: u32) -> (r: Option<String>)
    requires
        *old(slot_counter) < u32::MAX,
    ensures
        opt_text(r) == use_state_tuple_rewrite(line@, *old(slot_counter) as nat, component_id as nat),
        r is Some ==> *final(slot_counter) == *old(slot_counter) + 1,
        r is None ==> *final(slot_counter) == *old(slot_counter),
{
    let s = chars_of(line);
    proof {
        reveal_strlit("use_state(");
        assert("use_state("@.len() == 10);
        reveal_strlit("_i32");
        reveal_strlit("_f32");
        reveal_strlit("__volki_state_init_i32");
        reveal_strlit("__volki_state_init_f32");
        assert("__volki_state_init_i32"@[19] != "__volki_state_init_f32"@[19]);
    }
    let g = match find_at(&s, "use_state(", 0) {
        Some(g) => g,
        None => { return None; },
    };
    let (state_var, setter_var) = match tuple_vars_of(&s, g) {
        Some(p) => p,
        None => { return None; },
    };
    let n = s.len();
    proof { assert(g + 10 <= n); }
    let start = g + 10;
    let end = match closing_paren_at(&s, start) {
        Some(e) => e,
        None => { return None; },
    };
    let arg = trimmed_range(&s, start, end);
    let slot = *slot_counter;
    *slot_counter = slot + 1;
    let ac = chars_of(arg.as_str());
    let (init, setter, clean, ty): (&str, &str, String, &str) = if ends_with4(&ac, "_i32") {
        ("__volki_state_init_i32", "__volki_xstate_set_i32", string_of(&ac, 0, ac.len() - 4), "i32")
    } else if ends_with4(&ac, "_f32") {
        ("__volki_state_init_f32", "__volki_xstate_set_f32", string_of(&ac, 0, ac.len() - 4), "f32")
    } else if str_eq(arg.as_str(), "true") {
        let mut one = String::new();
        push_str(&mut one, "1");
        ("__volki_state_init_i32", "__volki_xstate_set_i32", one, "i32")
    } else if str_eq(arg.as_str(), "false") {
        let mut zero = String::new();
        push_str(&mut zero, "0");
        ("__volki_state_init_i32", "__volki_xstate_set_i32", zero, "i32")
    } else {
        ("__volki_state_init_i32", "__volki_xstate_set_i32", arg, "i32")
    };
    proof {
        let t = tuple_init(trim_text(s@.subrange(start as int, end as int)));
        assert(init@ == t.0);
        assert(setter@ == t.1);
        assert(clean@ =~= t.2);
        assert(ty@ == t.3);
    }
    let mut out = String::new();
    push_str(&mut out, "let ");
    push_str(&mut out, state_var.as_str());
    push_str(&mut out, " = ");
    push_str(&mut out, init);
    push_str(&mut out, "(");
    push_decimal(&mut out, slot as usize);
    push_str(&mut out, ", ");
    push_str(&mut out, clean.as_str());
    push_str(&mut out, ");\n");
    push_str(&mut out, "let ");
    push_str(&mut out, setter_var.as_str());
    push_str(&mut out, " = |value: ");
    push_str(&mut out, ty);
    push_str(&mut out, "| {\n");
    push_str(&mut out, "    ");
    push_str(&mut out, setter);
    push_str(&mut out, "(");
    push_decimal(&mut out, component_id as usize);
    push_str(&mut out, ", ");
    push_decimal(&mut out, slot as usize);
    push_str(&mut out, ", value);\n");
    push_str(&mut out, "};");
    Some(out)
}

/// Rewrites a line with `state::fmt_i32(v)` (or `fmt_f32`) with the next
/// format buffer, which it takes (`state_fmt_rewrite`).
pub fn transform_state_fmt_line(line: &str, _var_counter: &mut u32, fmt_counter: &mut u32) -> (r: Option<String>)
    requires
        *old(fmt_counter) < u32::MAX,
    ensures
        opt_text(r) == state_fmt_rewrite(line@, *old(fmt_counter) as nat),
        r is Some ==> *final(fmt_counter) == *old(fmt_counter) + 1,
        r is None ==> *final(fmt_counter) == *old(fmt_counter),
        *final(_var_counter) == *old(_var_counter),
{
    let s = chars_of(line);
    if s.len() < 15 {
        return None;
    }
    proof {
        reveal_strlit("state::fmt_i32(");
        reveal_strlit("state::fmt_f32(");
        assert("state::fmt_i32("@.len() == 15);
        assert("state::fmt_f32("@.len() == 15);
        reveal_strlit(".set_text(");
        reveal_strlit("let ");
    }
    let (start, f, size) = match find_at(&s, "state::fmt_i32(", 0) {
        Some(g) => (g + 15, "__volki_state_fmt_i32", "20"),
        None => match find_at(&s, "state::fmt_f32(", 0) {
            Some(g) => (g + 15, "__volki_state_fmt_f32", "32"),
            None => { return None; },
        },
    };
    let end = match closing_paren_at(&s, start) {
        Some(e) => e,
        None => { return None; },
    };
    let value = trimmed_range(&s, start, end);
    let fc = *fmt_counter;
    *fmt_counter = fc + 1;
    let buf = temp_name("__fb", fc);
    let len = temp_name("__fl", fc);
    let mut out = String::new();
    push_str(&mut out, "let ");
    push_str(&mut out, buf.as_str());
    push_str(&mut out, " = __volki_alloc(");
    push_str(&mut out, size);
    push_str(&mut out, ");\n");
    push_str(&mut out, "let ");
    push_str(&mut out, len.as_str());
    push_str(&mut out, " = ");
    push_str(&mut out, f);
    push_str(&mut out, "(");
    push_str(&mut out, value.as_str());
    push_str(&mut out, ", ");
    push_str(&mut out, buf.as_str());
    push_str(&mut out, ", ");
    push_str(&mut out, size);
    push_str(&mut out, ");\n");
    match find_at(&s, ".set_text(", 0) {
        Some(m) => {
            proof { assert(s@.subrange(0, m as int) =~= s@.take(m as int)); }
            let obj = strip_end(&trimmed_range(&s, 0, m), ';');
            push_str(&mut out, "__volki_dom_set_text(");
            push_str(&mut out, obj.as_str());
            push_str(&mut out, ", ");
            push_str(&mut out, buf.as_str());
            push_str(&mut out, ", ");
            push_str(&mut out, len.as_str());
            push_str(&mut out, ");");
            Some(out)
        },
        None => {
            let whole = trim_str(line);
            if starts_text(whole.as_str(), "let ") {
                Some(drop_last_char(&out))
            } else {
                Some(out)
            }
        },
    }
}


/// The counters of a Component body rewrite while it runs.
struct ComponentCounters {
    var: u32,
    slot: u32,
    refs: u32,
    effects: u32,
    memos: u32,
    fmts: u32,
}

impl ComponentCounters {
    spec fn counts(&self) -> BodyCounts {
        BodyCounts {
            var: self.var as nat,
            slot: self.slot as nat,
            refs: self.refs as nat,
            effects: self.effects as nat,
            memos: self.memos as nat,
            fmts: self.fmts as nat,
        }
    }

    /// Each counter is at most `n`.
    spec fn at_most(&self, n: int) -> bool {
        &&& self.var <= n
        &&& self.slot <= n
        &&& self.refs <= n
        &&& self.effects <= n
        &&& self.memos <= n
        &&& self.fmts <= n
    }
}

/// One trimmed line of a Component body rewritten (`component_line`).
fn component_line_of(t: &str, component_id: u32, k: &mut ComponentCounters, body: &str) -> (r: String)
    requires
        old(k).at_most(u32::MAX - 1),
    ensures
        (r@, final(k).counts()) == component_line(t@, component_id as nat, old(k).counts(), body@),
        final(k).var <= old(k).var + 1,
        final(k).slot <= old(k).slot + 1,
        final(k).refs <= old(k).refs + 1,
        final(k).effects <= old(k).effects + 1,
        final(k).memos <= old(k).memos + 1,
        final(k).fmts <= old(k).fmts + 1,
{
    proof { reveal(component_line); }
    match transform_use_memo(t, &mut k.memos) {
        Some(x) => { return x; },
        None => {},
    }
    match transform_use_effect(t, &mut k.effects) {
        Some(x) => { return x; },
        None => {},
    }
    match transform_use_ref_el(t, &mut k.refs) {
        Some(x) => { return x; },
        None => {},
    }
    match transform_use_ref(t, &mut k.refs) {
        Some(x) => { return x; },
        None => {},
    }
    match transform_ref_get(t) {
        Some(x) => { return x; },
        None => {},
    }
    match transform_ref_set(t) {
        Some(x) => { return x; },
        None => {},
    }
    match transform_use_state_str(t, &mut k.slot) {
        Some(x) => { return x; },
        None => {},
    }
    match transform_use_state_tuple(t, &mut k.slot, component_id) {
        Some(x) => { return x; },
        None => {},
    }
    match transform_use_state(t, &mut k.slot) {
        Some(x) => { return x; },
        None => {},
    }
    match transform_state_fmt_line(t, &mut k.var, &mut k.fmts) {
        Some(x) => { return x; },
        None => {},
    }
    dom_line_of(t, &mut k.var, body)
}

/// Rewrites a Component body line by line into WASM extern calls
/// (`component_fold`): hooks take the next slot of their kind, the DOM rules
/// are those of Client bodies, and `extern "C" { ... }` blocks are dropped.
pub fn transform_component_body(body: &str, component_id: u32) -> (r: String)
    requires
        body@.len() < u32::MAX,
    ensures
        r@ == component_fold(char_pieces(body@, '\n', 0, 0), component_id as nat, body@).0,
{
    let lines = crate::compiler::semantic::pieces_by_char(body, '\n');
    let ghost ls = crate::compiler::semantic::texts(lines@);
    proof {
        lemma_char_pieces_len(body@, '\n', 0, 0);
        reveal_strlit("{");
        reveal_strlit("}");
        assert("{"@ =~= seq!['{']);
        assert("}"@ =~= seq!['}']);
        assert(ls.take(0) =~= Seq::<Seq<char>>::empty());
    }
    let mut out = String::new();
    let mut k = ComponentCounters { var: 0, slot: 0, refs: 0, effects: 0, memos: 0, fmts: 0 };
    let mut in_extern = false;
    let mut i: usize = 0;
    while i < lines.len()
        invariant
            ls == crate::compiler::semantic::texts(lines@),
            ls == char_pieces(body@, '\n', 0, 0),
            lines@.len() <= body@.len() + 1,
            body@.len() < u32::MAX,
            i <= lines@.len(),
            k.at_most(i as int),
            "{"@ == seq!['{'],
            "}"@ == seq!['}'],
            component_fold(ls.take(i as int), component_id as nat, body@) == (out@, k.counts(), in_extern),
        decreases lines@.len() - i,
    {
        let t = trim_str(lines[i].as_str());
        proof {
            assert(ls.take(i + 1).drop_last() =~= ls.take(i as int));
            assert(ls.take(i + 1).last() == lines@[i as int]@);
        }
        let tc = chars_of(t.as_str());
        if tc.len() == 0 {
        } else if starts_text(t.as_str(), "extern ") && find_at(&tc, "{", 0).is_some() {
            in_extern = true;
        } else if in_extern {
            if find_at(&tc, "}", 0).is_some() {
                in_extern = false;
            }
        } else {
            let step = component_line_of(t.as_str(), component_id, &mut k, body);
            push_str(&mut out, step.as_str());
            push_str(&mut out, "\n");
        }
        i += 1;
    }
    proof { assert(ls.take(lines@.len() as int) =~= ls); }
    out
}


// ── State helpers ──────────────────────────────────────────────────────

/// The type of a tuple state variable that gets getter and setter helpers.
#[derive(Debug, Clone, Copy, PartialEq, Eq, Structural)]
pub enum StateHelperKind {
    I32,
    F32,
}

/// The getter and setter generated for a tuple `use_state` declaration of a
/// component.
pub struct StateHelperBinding {
    pub getter: String,
    pub setter: String,
    pub comp_id: u32,
    pub slot: u32,
    pub kind: StateHelperKind,
}

/// `let (state, setter) = use_state(arg);`: the two names and the state's type
/// (`f32` for an `_f32` argument, else `i32`).
pub open spec fn tuple_decl(line: Seq<char>) -> Option<(Seq<char>, Seq<char>, StateHelperKind)> {
    let g = find_text(line, "use_state("@);
    if g < 0 {
        None
    } else {
        match tuple_vars(line.take(g)) {
            None => None,
            Some((a, b)) => {
                let e = closing_paren(line, g + 10, 1);
                if e < 0 {
                    None
                } else {
                    let arg = trim_text(line.subrange(g + 10, e));
                    let kind = if arg.len() >= 4 && arg.skip(arg.len() - 4) == "_f32"@ {
                        StateHelperKind::F32
                    } else {
                        StateHelperKind::I32
                    };
                    Some((a, b, kind))
                }
            },
        }
    }
}

/// Parses a tuple state declaration (`tuple_decl`).
pub fn parse_use_state_tuple_decl(line: &str) -> (r: Option<(String, String, StateHelperKind)>)
    ensures
        match r {
            Some((a, b, k)) => tuple_decl(line@) == Some((a@, b@, k)),
            None => tuple_decl(line@) is None,
        },
{
    let s = chars_of(line);
    proof {
        reveal_strlit("use_state(");
        assert("use_state("@.len() == 10);
        reveal_strlit("_f32");
    }
    let g = match find_at(&s, "use_state(", 0) {
        Some(g) => g,
        None => { return None; },
    };
    let (a, b) = match tuple_vars_of(&s, g) {
        Some(p) => p,
        None => { return None; },
    };
    let n = s.len();
    proof { assert(g + 10 <= n); }
    let end = match closing_paren_at(&s, g + 10) {
        Some(e) => e,
        None => { return None; },
    };
    let arg = trimmed_range(&s, g + 10, end);
    let ac = chars_of(arg.as_str());
    let kind = if ends_with4(&ac, "_f32") { StateHelperKind::F32 } else { StateHelperKind::I32 };
    Some((a, b, kind))
}

/// The text of the bytes `b[from..to]` when they are UTF-8, and none otherwise
/// (a range that does not fall on character boundaries).
pub open spec fn bytes_text(b: Seq<u8>, from: int, to: int) -> Seq<char> {
    let sub = b.subrange(from, to);
    if vstd::utf8::valid_utf8(sub) { vstd::utf8::decode_utf8(sub) } else { Seq::empty() }
}

/// The text of the bytes `b[span]` (`bytes_text`).
pub open spec fn span_text(b: Seq<u8>, span: (usize, usize)) -> Seq<char> {
    bytes_text(b, span.0 as int, span.1 as int)
}

/// The text of `source[span]` (`span_text`).
pub(crate) fn span_text_of(source: &str, span: (usize, usize)) -> (r: String)
    requires
        span.0 <= span.1 <= source.spec_bytes().len(),
    ensures
        r@ == span_text(source.spec_bytes(), span),
        r@.len() <= span.1 - span.0,
{
    let b = source.as_bytes();
    match crate::text::str_from_utf8(&b[span.0..span.1]) {
        Some(t) => {
            proof { crate::text::lemma_decode_len(b@.subrange(span.0 as int, span.1 as int)); }
            t
        },
        None => String::new(),
    }
}

/// What a binding says, as plain values.
pub struct BindingView {
    pub getter: Seq<char>,
    pub setter: Seq<char>,
    pub comp_id: u32,
    pub slot: nat,
    pub kind: StateHelperKind,
}

/// The view of a binding.
pub open spec fn binding_view(h: StateHelperBinding) -> BindingView {
    BindingView { getter: h.getter@, setter: h.setter@, comp_id: h.comp_id, slot: h.slot as nat, kind: h.kind }
}

/// The views of bindings.
pub open spec fn bindings_view(v: Seq<StateHelperBinding>) -> Seq<BindingView> {
    v.map_values(|h: StateHelperBinding| binding_view(h))
}

/// The bindings the lines of a component body declare, and the number of state
/// slots they take: every `use_state` line takes the next slot, and a tuple
/// declaration also gets a `get_<state>` getter and its setter.
pub open spec fn line_bindings(lines: Seq<Seq<char>>, cid: u32) -> (Seq<BindingView>, nat)
    decreases lines.len(),
{
    if lines.len() == 0 {
        (Seq::empty(), 0)
    } else {
        let prev = line_bindings(lines.drop_last(), cid);
        let t = trim_text(lines.last());
        if t.len() == 0 {
            prev
        } else {
            match tuple_decl(t) {
                Some((st, set, kind)) => (
                    prev.0.push(BindingView { getter: "get_"@ + st, setter: set, comp_id: cid, slot: prev.1, kind }),
                    prev.1 + 1,
                ),
                None => if crate::text::occurs_in(t, "use_state("@) { (prev.0, prev.1 + 1) } else { prev },
            }
        }
    }
}

/// The bindings of one component: none without a name.
pub open spec fn fn_bindings(b: Seq<u8>, f: super::scanner::RsxFunction, ids: Seq<(String, u32)>) -> Seq<BindingView> {
    match f.name {
        None => Seq::empty(),
        Some(n) => line_bindings(char_pieces(span_text(b, f.body_span), '\n', 0, 0), component_id_from(ids, n@, 0)).0,
    }
}

/// The bindings of the components, in order.
pub open spec fn all_bindings(b: Seq<u8>, fns: Seq<&super::scanner::RsxFunction>, ids: Seq<(String, u32)>) -> Seq<BindingView>
    decreases fns.len(),
{
    if fns.len() == 0 {
        Seq::empty()
    } else {
        all_bindings(b, fns.drop_last(), ids) + fn_bindings(b, *fns.last(), ids)
    }
}

/// The getter and setter helpers that the tuple state declarations of the
/// component bodies need (`all_bindings`).
pub fn collect_state_helper_bindings(
    component_fns: &[&super::scanner::RsxFunction],
    source: &str,
    component_ids: &[(String, u32)],
) -> (r: Vec<StateHelperBinding>)
    requires
        source.spec_bytes().len() < u32::MAX - 1,
        forall|k: int| 0 <= k < component_fns@.len()
            ==> (#[trigger] component_fns@[k]).body_span.0 <= component_fns@[k].body_span.1 <= source.spec_bytes().len(),
    ensures
        bindings_view(r@) == all_bindings(source.spec_bytes(), component_fns@, component_ids@),
{
    let ghost b = source.spec_bytes();
    let mut out: Vec<StateHelperBinding> = Vec::new();
    let mut k: usize = 0;
    proof { assert(component_fns@.take(0) =~= Seq::<&super::scanner::RsxFunction>::empty()); }
    while k < component_fns.len()
        invariant
            b == source.spec_bytes(),
            b.len() < u32::MAX - 1,
            forall|j: int| 0 <= j < component_fns@.len()
                ==> (#[trigger] component_fns@[j]).body_span.0 <= component_fns@[j].body_span.1 <= b.len(),
            k <= component_fns@.len(),
            bindings_view(out@) == all_bindings(b, component_fns@.take(k as int), component_ids@),
        decreases component_fns@.len() - k,
    {
        let f = component_fns[k];
        proof {
            assert(component_fns@.take(k + 1).drop_last() =~= component_fns@.take(k as int));
            assert(component_fns@.take(k + 1).last() == f);
        }
        let ghost before = bindings_view(out@);
        match &f.name {
            None => {
                proof { assert(fn_bindings(b, *f, component_ids@) =~= Seq::<BindingView>::empty()); }
            },
            Some(n) => {
                let cid = resolve_component_id(n.as_str(), component_ids);
                let text = span_text_of(source, f.body_span);
                let lines = crate::compiler::semantic::pieces_by_char(text.as_str(), '\n');
                let ghost ls = crate::compiler::semantic::texts(lines@);
                proof {
                    lemma_char_pieces_len(text@, '\n', 0, 0);
                    assert(ls.take(0) =~= Seq::<Seq<char>>::empty());
                }
                let mut slot: u32 = 0;
                let mut i: usize = 0;
                while i < lines.len()
                    invariant
                        ls == crate::compiler::semantic::texts(lines@),
                        ls == char_pieces(text@, '\n', 0, 0),
                        lines@.len() <= b.len() + 1,
                        b.len() < u32::MAX - 1,
                        i <= lines@.len(),
                        slot <= i,
                        bindings_view(out@) == before + line_bindings(ls.take(i as int), cid).0,
                        slot as nat == line_bindings(ls.take(i as int), cid).1,
                    decreases lines@.len() - i,
                {
                    let t = trim_str(lines[i].as_str());
                    proof {
                        assert(ls.take(i + 1).drop_last() =~= ls.take(i as int));
                        assert(ls.take(i + 1).last() == lines@[i as int]@);
                    }
                    if !t.as_str().is_empty() {
                        match parse_use_state_tuple_decl(t.as_str()) {
                            Some((st, set, kind)) => {
                                let mut getter = String::new();
                                push_str(&mut getter, "get_");
                                push_str(&mut getter, st.as_str());
                                let ghost prev = bindings_view(out@);
                                out.push(StateHelperBinding { getter, setter: set, comp_id: cid, slot, kind });
                                proof { assert(bindings_view(out@) =~= prev.push(binding_view(out@.last()))); }
                                slot = slot + 1;
                            },
                            None => {
                                if crate::text::contains(t.as_str(), "use_state(") {
                                    slot = slot + 1;
                                }
                            },
                        }
                    }
                    i += 1;
                }
                proof { assert(ls.take(lines@.len() as int) =~= ls); }
            },
        }
        proof { assert(bindings_view(out@) =~= all_bindings(b, component_fns@.take(k + 1), component_ids@)); }
        k += 1;
    }
    proof { assert(component_fns@.take(component_fns@.len() as int) =~= component_fns@); }
    out
}


/// The number of lines that call `use_ref` or `use_ref_el`.
pub open spec fn ref_lines(lines: Seq<Seq<char>>) -> nat
    decreases lines.len(),
{
    if lines.len() == 0 {
        0
    } else {
        let t = trim_text(lines.last());
        ref_lines(lines.drop_last())
            + if crate::text::occurs_in(t, "use_ref_el("@) || crate::text::occurs_in(t, "use_ref("@) { 1nat } else { 0nat }
    }
}

/// The logic section of a component: the part before `return (` when its body
/// splits, else the whole body, as a byte range.
pub open spec fn logic_range(b: Seq<u8>, f: super::scanner::RsxFunction) -> (int, int) {
    match super::scanner::body_split(b, f.body_span) {
        Some((logic, _rsx)) => logic,
        None => (f.body_span.0 as int, f.body_span.1 as int),
    }
}

/// The text of the logic section of a component (`logic_range`).
fn logic_text_of(func: &super::scanner::RsxFunction, source: &str) -> (r: String)
    requires
        func.body_span.0 <= func.body_span.1 <= source.spec_bytes().len(),
    ensures
        r@ == bytes_text(source.spec_bytes(), logic_range(source.spec_bytes(), *func).0, logic_range(source.spec_bytes(), *func).1),
        r@.len() <= source.spec_bytes().len(),
{
    match super::scanner::split_component_body(source, func.body_span) {
        Some(sp) => span_text_of(source, sp.logic_span),
        None => span_text_of(source, func.body_span),
    }
}

/// The number of `use_ref` and `use_ref_el` calls in the logic section of a
/// component: where its RSX ref slots start (`ref_lines`).
pub fn count_user_refs(func: &super::scanner::RsxFunction, source: &str) -> (r: u32)
    requires
        func.body_span.0 <= func.body_span.1 <= source.spec_bytes().len(),
        source.spec_bytes().len() < u32::MAX - 1,
    ensures
        r as nat == ref_lines(char_pieces(
            bytes_text(source.spec_bytes(), logic_range(source.spec_bytes(), *func).0, logic_range(source.spec_bytes(), *func).1),
            '\n', 0, 0)),
{
    let body = logic_text_of(func, source);
    let lines = crate::compiler::semantic::pieces_by_char(body.as_str(), '\n');
    let ghost ls = crate::compiler::semantic::texts(lines@);
    proof {
        lemma_char_pieces_len(body@, '\n', 0, 0);
        assert(ls.take(0) =~= Seq::<Seq<char>>::empty());
    }
    let mut count: u32 = 0;
    let mut i: usize = 0;
    while i < lines.len()
        invariant
            ls == crate::compiler::semantic::texts(lines@),
            ls == char_pieces(body@, '\n', 0, 0),
            lines@.len() <= source.spec_bytes().len() + 1,
            source.spec_bytes().len() < u32::MAX - 1,
            i <= lines@.len(),
            count <= i,
            count as nat == ref_lines(ls.take(i as int)),
        decreases lines@.len() - i,
    {
        let t = trim_str(lines[i].as_str());
        proof {
            assert(ls.take(i + 1).drop_last() =~= ls.take(i as int));
            assert(ls.take(i + 1).last() == lines@[i as int]@);
        }
        if crate::text::contains(t.as_str(), "use_ref_el(") {
            count += 1;
        } else if crate::text::contains(t.as_str(), "use_ref(") {
            count += 1;
        }
        i += 1;
    }
    proof { assert(ls.take(lines@.len() as int) =~= ls); }
    count
}

/// The trimmed lines of `lines` that declare a function (`fn ...`), in order.
pub open spec fn fn_decl_lines(lines: Seq<Seq<char>>) -> Seq<Seq<char>>
    decreases lines.len(),
{
    if lines.len() == 0 {
        Seq::empty()
    } else {
        let prev = fn_decl_lines(lines.drop_last());
        let t = trim_text(lines.last());
        if starts(t, "fn "@) { prev.push(t) } else { prev }
    }
}

pub proof fn lemma_find_from(s: Seq<char>, pat: Seq<char>, i: int)
    ensures
        find_from(s, pat, i) == -1 || (i <= find_from(s, pat, i) && find_from(s, pat, i) + pat.len() <= s.len()
            && occurs_at(s, pat, find_from(s, pat, i))),
    decreases s.len() + 1 - i,
{
    if !(i < 0 || i + pat.len() > s.len()) && !occurs_at(s, pat, i) {
        lemma_find_from(s, pat, i + 1);
    }
}

/// The function declarations of the `extern "C" { ... }` blocks of `s` from
/// `from` on (each block read up to its first `}`).
pub open spec fn extern_decls(s: Seq<char>, from: int) -> Seq<Seq<char>>
    decreases s.len() + 1 - from,
{
    let a = find_from(s, "extern \"C\""@, from);
    if from < 0 || a < 0 {
        Seq::empty()
    } else {
        let bs = find_from(s, "{"@, a);
        let be = find_from(s, "}"@, bs);
        if bs < 0 || be < 0 {
            Seq::empty()
        } else {
            proof {
                lemma_find_from(s, "extern \"C\""@, from);
                lemma_find_from(s, "{"@, a);
                lemma_find_from(s, "}"@, bs);
            }
            fn_decl_lines(char_pieces(s.subrange(bs + 1, be), '\n', 0, 0)) + extern_decls(s, be + 1)
        }
    }
}

/// Appends the function declarations of the `extern "C"` blocks of a body
/// (`extern_decls`).
pub fn extract_user_externs(body: &str, externs: &mut Vec<String>)
    ensures
        crate::compiler::semantic::texts(final(externs)@)
            == crate::compiler::semantic::texts(old(externs)@) + extern_decls(body@, 0),
{
    let s = chars_of(body);
    let n = s.len();
    proof {
        reveal_strlit("extern \"C\"");
        reveal_strlit("{");
        reveal_strlit("}");
        reveal_strlit("fn ");
        assert("{"@.len() == 1);
        assert("}"@.len() == 1);
        assert("extern \"C\""@.len() == 10);
    }
    let mut from: usize = 0;
    while from <= n
        invariant
            s@ == body@,
            n == s@.len(),
            from <= n + 1,
            "{"@.len() == 1,
            "}"@.len() == 1,
            "extern \"C\""@.len() == 10,
            crate::compiler::semantic::texts(externs@) + extern_decls(body@, from as int)
                == crate::compiler::semantic::texts(old(externs)@) + extern_decls(body@, 0),
        decreases n + 1 - from,
    {
        let a = match find_at(&s, "extern \"C\"", from) {
            Some(a) => a,
            None => {
                proof { assert(extern_decls(body@, from as int) =~= Seq::<Seq<char>>::empty()); }
                return;
            },
        };
        let bs = match find_at(&s, "{", a) {
            Some(x) => x,
            None => {
                proof { assert(extern_decls(body@, from as int) =~= Seq::<Seq<char>>::empty()); }
                return;
            },
        };
        let be = match find_at(&s, "}", bs) {
            Some(x) => x,
            None => {
                proof { assert(extern_decls(body@, from as int) =~= Seq::<Seq<char>>::empty()); }
                return;
            },
        };
        proof {
            lemma_find_from(s@, "{"@, a as int);
            lemma_find_from(s@, "}"@, bs as int);
            reveal_strlit("{");
            reveal_strlit("}");
            assert("{"@ =~= seq!['{']);
            assert("}"@ =~= seq!['}']);
            assert(s@.subrange(bs as int, bs + 1)[0] == "{"@[0]);
            assert(s@.subrange(be as int, be + 1)[0] == "}"@[0]);
            assert(s@[bs as int] == '{');
            assert(s@[be as int] == '}');
            assert(bs < be);
        }
        let inner = string_of(&s, bs + 1, be);
        let lines = crate::compiler::semantic::pieces_by_char(inner.as_str(), '\n');
        let ghost ls = crate::compiler::semantic::texts(lines@);
        let ghost base = crate::compiler::semantic::texts(externs@);
        proof { assert(ls.take(0) =~= Seq::<Seq<char>>::empty()); }
        let mut i: usize = 0;
        while i < lines.len()
            invariant
                ls == crate::compiler::semantic::texts(lines@),
                i <= lines@.len(),
                crate::compiler::semantic::texts(externs@) == base + fn_decl_lines(ls.take(i as int)),
            decreases lines@.len() - i,
        {
            let t = trim_str(lines[i].as_str());
            proof {
                assert(ls.take(i + 1).drop_last() =~= ls.take(i as int));
                assert(ls.take(i + 1).last() == lines@[i as int]@);
            }
            if starts_text(t.as_str(), "fn ") {
                let ghost prev = crate::compiler::semantic::texts(externs@);
                externs.push(t);
                proof { assert(crate::compiler::semantic::texts(externs@) =~= prev.push(externs@.last()@)); }
            }
            i += 1;
        }
        proof {
            assert(ls.take(lines@.len() as int) =~= ls);
            assert(extern_decls(body@, from as int)
                == fn_decl_lines(char_pieces(s@.subrange(bs + 1, be as int), '\n', 0, 0)) + extern_decls(body@, be + 1));
            assert(base + extern_decls(body@, from as int)
                =~= crate::compiler::semantic::texts(externs@) + extern_decls(body@, be + 1));
        }
        from = be + 1;
    }
}


/// The non-empty trimmed lines of `lines` (with `skip_extern`, not those that
/// start with `extern `), each after `prefix` and ended by a newline.
pub open spec fn indented(lines: Seq<Seq<char>>, prefix: Seq<char>, skip_extern: bool) -> Seq<char>
    decreases lines.len(),
{
    if lines.len() == 0 {
        Seq::empty()
    } else {
        let prev = indented(lines.drop_last(), prefix, skip_extern);
        let t = trim_text(lines.last());
        if t.len() == 0 || (skip_extern && starts(t, "extern "@)) { prev } else { prev + prefix + t + "\n"@ }
    }
}

/// Appends the lines of `text` indented (`indented`).
fn push_indented(out: &mut String, text: &str, prefix: &str, skip_extern: bool)
    ensures
        final(out)@ == old(out)@ + indented(char_pieces(text@, '\n', 0, 0), prefix@, skip_extern),
{
    let lines = crate::compiler::semantic::pieces_by_char(text, '\n');
    let ghost ls = crate::compiler::semantic::texts(lines@);
    proof { assert(ls.take(0) =~= Seq::<Seq<char>>::empty()); }
    let mut i: usize = 0;
    while i < lines.len()
        invariant
            ls == crate::compiler::semantic::texts(lines@),
            ls == char_pieces(text@, '\n', 0, 0),
            i <= lines@.len(),
            out@ == old(out)@ + indented(ls.take(i as int), prefix@, skip_extern),
        decreases lines@.len() - i,
    {
        let t = trim_str(lines[i].as_str());
        proof {
            assert(ls.take(i + 1).drop_last() =~= ls.take(i as int));
            assert(ls.take(i + 1).last() == lines@[i as int]@);
        }
        if !(t.as_str().is_empty() || (skip_extern && starts_text(t.as_str(), "extern "))) {
            push_str(out, prefix);
            push_str(out, t.as_str());
            push_str(out, "\n");
        }
        i += 1;
    }
    proof { assert(ls.take(lines@.len() as int) =~= ls); }
}

/// The rewritten Component body text (`component_fold`).
pub open spec fn component_body_code(text: Seq<char>, cid: nat) -> Seq<char> {
    component_fold(char_pieces(text, '\n', 0, 0), cid, text).0
}

/// The opening of a component's exported function.
pub open spec fn component_head(name: Seq<char>, id: u32) -> Seq<char> {
    "#[unsafe(no_mangle)]\n"@ + "pub extern \"C\" fn __volki_component_"@ + name + "() {\n"@ + "    unsafe {\n"@
        + "        __volki_component_begin("@ + decimal(id as nat) + ");\n"@
}

/// The statements of a component's exported function: with RSX output, the
/// rewritten logic section, the mount code run on the first render and the
/// update code; without, the rewritten body.
pub open spec fn component_mid(b: Seq<u8>, f: super::scanner::RsxFunction, id: u32, rsx: Option<(Seq<char>, Seq<char>)>) -> Seq<char> {
    match rsx {
        Some((mount, update)) => {
            let logic = bytes_text(b, logic_range(b, f).0, logic_range(b, f).1);
            indented(char_pieces(component_body_code(logic, id as nat), '\n', 0, 0), "        "@, true)
                + "        if __volki_component_is_mounted("@ + decimal(id as nat) + ") == 0 {\n"@
                + indented(char_pieces(mount, '\n', 0, 0), "            "@, false) + "        }\n"@
                + (if update.len() == 0 { Seq::empty() } else { indented(char_pieces(update, '\n', 0, 0), "        "@, false) })
        },
        None => {
            let body = span_text(b, f.body_span);
            indented(char_pieces(component_body_code(body, id as nat), '\n', 0, 0), "        "@, true)
        },
    }
}

/// The exported function of a component, wrapped in `__volki_component_begin`
/// and `__volki_component_end`; nothing for a component without a name.
pub open spec fn component_fn_code(b: Seq<u8>, f: super::scanner::RsxFunction, id: u32, rsx: Option<(Seq<char>, Seq<char>)>) -> Seq<char> {
    match f.name {
        None => Seq::empty(),
        Some(n) => component_head(n@, id) + component_mid(b, f, id, rsx) + "        __volki_component_end();\n"@ + "    }\n"@
            + "}\n\n"@,
    }
}

/// The mount and update code of an RSX output.
pub open spec fn rsx_code(o: Option<&super::wasm_rsx_codegen::WasmRsxOutput>) -> Option<(Seq<char>, Seq<char>)> {
    match o {
        Some(x) => Some((x.mount_code@, x.update_code@)),
        None => None,
    }
}

/// Appends the exported function of a component (`component_fn_code`).
pub fn generate_component_fn(
    func: &super::scanner::RsxFunction,
    source: &str,
    component_id: u32,
    rsx_output: Option<&super::wasm_rsx_codegen::WasmRsxOutput>,
    out: &mut String,
)
    requires
        func.body_span.0 <= func.body_span.1 <= source.spec_bytes().len(),
        source.spec_bytes().len() < u32::MAX,
    ensures
        final(out)@ == old(out)@ + component_fn_code(source.spec_bytes(), *func, component_id, rsx_code(rsx_output)),
{
    let name = match &func.name {
        Some(n) => n,
        None => {
            proof { assert(old(out)@ + component_fn_code(source.spec_bytes(), *func, component_id, rsx_code(rsx_output)) =~= old(out)@); }
            return;
        },
    };
    let ghost o0 = out@;
    let ghost b = source.spec_bytes();
    push_str(out, "#[unsafe(no_mangle)]\n");
    push_str(out, "pub extern \"C\" fn __volki_component_");
    push_str(out, name.as_str());
    push_str(out, "() {\n");
    push_str(out, "    unsafe {\n");
    push_str(out, "        __volki_component_begin(");
    push_decimal(out, component_id as usize);
    push_str(out, ");\n");
    proof { assert(out@ =~= o0 + component_head(name@, component_id)); }
    let ghost o1 = out@;
    match rsx_output {
        Some(rsx) => {
            let logic = logic_text_of(func, source);
            let code = transform_component_body(logic.as_str(), component_id);
            push_indented(out, code.as_str(), "        ", true);
            push_str(out, "        if __volki_component_is_mounted(");
            push_decimal(out, component_id as usize);
            push_str(out, ") == 0 {\n");
            push_indented(out, rsx.mount_code.as_str(), "            ", false);
            push_str(out, "        }\n");
            if !rsx.update_code.as_str().is_empty() {
                push_indented(out, rsx.update_code.as_str(), "        ", false);
            }
            proof { assert(out@ =~= o1 + component_mid(b, *func, component_id, rsx_code(rsx_output))); }
        },
        None => {
            let body = span_text_of(source, func.body_span);
            let code = transform_component_body(body.as_str(), component_id);
            push_indented(out, code.as_str(), "        ", true);
            proof { assert(out@ =~= o1 + component_mid(b, *func, component_id, rsx_code(rsx_output))); }
        },
    }
    push_str(out, "        __volki_component_end();\n");
    push_str(out, "    }\n");
    push_str(out, "}\n\n");
}


// ── Client functions ───────────────────────────────────────────────────

/// How a Client parameter crosses the WASM boundary: a string as a pointer and
/// a length, a value of a WASM type (named by its text), or nothing.
pub enum ParamAbi {
    StringPair,
    Direct(String),
    Void,
}

/// A parameter in the exported signature.
pub open spec fn param_text(p: super::scanner::FnParam, a: ParamAbi) -> Seq<char> {
    match a {
        ParamAbi::StringPair => p.name@ + "_ptr: i32, "@ + p.name@ + "_len: i32"@,
        ParamAbi::Direct(t) => p.name@ + ": "@ + t@,
        ParamAbi::Void => Seq::empty(),
    }
}

/// The exported parameter list: the parameters in order, separated by commas
/// (a parameter that crosses as nothing still takes its place).
pub open spec fn param_list(ps: Seq<super::scanner::FnParam>, abis: Seq<ParamAbi>) -> Seq<char>
    decreases ps.len(),
{
    if ps.len() == 0 {
        Seq::empty()
    } else {
        param_list(ps.drop_last(), abis) + (if ps.len() > 1 { ", "@ } else { Seq::empty() })
            + param_text(ps.last(), abis[ps.len() - 1])
    }
}

/// The rebuilding of each string parameter from its pointer and length.
pub open spec fn string_rebuilds(ps: Seq<super::scanner::FnParam>, abis: Seq<ParamAbi>) -> Seq<char>
    decreases ps.len(),
{
    if ps.len() == 0 {
        Seq::empty()
    } else {
        let n = ps.last().name@;
        string_rebuilds(ps.drop_last(), abis) + if abis[ps.len() - 1] is StringPair {
            "    let "@ + n + " = unsafe { core::str::from_utf8_unchecked(core::slice::from_raw_parts("@ + n
                + "_ptr as *const u8, "@ + n + "_len as usize)) };\n"@
        } else {
            Seq::empty()
        }
    }
}

/// The rewritten Client body text (`client_fold`).
pub open spec fn client_body_code(text: Seq<char>, ids: Seq<(String, u32)>) -> Seq<char> {
    client_fold(char_pieces(text, '\n', 0, 0), ids, text).0
}

/// The exported function of a Client: its parameters flattened to the WASM ABI,
/// string parameters rebuilt, and the rewritten body; nothing without a name.
pub open spec fn client_fn_code(b: Seq<u8>, f: super::scanner::RsxFunction, ids: Seq<(String, u32)>, abis: Seq<ParamAbi>) -> Seq<char> {
    match f.name {
        None => Seq::empty(),
        Some(n) => "#[unsafe(no_mangle)]\n"@ + "pub extern \"C\" fn "@ + n@ + "("@ + param_list(f.params@, abis) + ") {\n"@
            + string_rebuilds(f.params@, abis) + "    unsafe {\n"@
            + indented(char_pieces(client_body_code(span_text(b, f.body_span), ids), '\n', 0, 0), "        "@, true)
            + "    }\n"@ + "}\n\n"@,
    }
}

/// Appends the exported function of a Client (`client_fn_code`); `abis` gives
/// how each parameter crosses the boundary.
pub fn generate_client_fn(
    func: &super::scanner::RsxFunction,
    source: &str,
    component_ids: &[(String, u32)],
    abis: &[ParamAbi],
    out: &mut String,
)
    requires
        func.body_span.0 <= func.body_span.1 <= source.spec_bytes().len(),
        source.spec_bytes().len() < u32::MAX,
        abis@.len() == func.params@.len(),
    ensures
        final(out)@ == old(out)@ + client_fn_code(source.spec_bytes(), *func, component_ids@, abis@),
{
    let name = match &func.name {
        Some(n) => n,
        None => {
            proof { assert(old(out)@ + client_fn_code(source.spec_bytes(), *func, component_ids@, abis@) =~= old(out)@); }
            return;
        },
    };
    let ghost o0 = out@;
    push_str(out, "#[unsafe(no_mangle)]\n");
    push_str(out, "pub extern \"C\" fn ");
    push_str(out, name.as_str());
    push_str(out, "(");
    let ghost o1 = out@;
    let ghost ps = func.params@;
    let mut first = true;
    let mut i: usize = 0;
    while i < func.params.len()
        invariant
            ps == func.params@,
            abis@.len() == ps.len(),
            i <= ps.len(),
            first == (i == 0),
            out@ == o1 + param_list(ps.take(i as int), abis@),
        decreases ps.len() - i,
    {
        let p = &func.params[i];
        proof {
            assert(ps.take(i + 1).drop_last() =~= ps.take(i as int));
            assert(ps.take(i + 1).last() == ps[i as int]);
        }
        if !first {
            push_str(out, ", ");
        }
        first = false;
        match &abis[i] {
            ParamAbi::StringPair => {
                push_str(out, p.name.as_str());
                push_str(out, "_ptr: i32, ");
                push_str(out, p.name.as_str());
                push_str(out, "_len: i32");
            },
            ParamAbi::Direct(t) => {
                push_str(out, p.name.as_str());
                push_str(out, ": ");
                push_str(out, t.as_str());
            },
            ParamAbi::Void => {},
        }
        i += 1;
    }
    proof { assert(ps.take(ps.len() as int) =~= ps); }
    push_str(out, ") {\n");
    let ghost o2 = out@;
    let mut i: usize = 0;
    while i < func.params.len()
        invariant
            ps == func.params@,
            abis@.len() == ps.len(),
            i <= ps.len(),
            out@ == o2 + string_rebuilds(ps.take(i as int), abis@),
        decreases ps.len() - i,
    {
        let p = &func.params[i];
        proof {
            assert(ps.take(i + 1).drop_last() =~= ps.take(i as int));
            assert(ps.take(i + 1).last() == ps[i as int]);
        }
        match &abis[i] {
            ParamAbi::StringPair => {
                push_str(out, "    let ");
                push_str(out, p.name.as_str());
                push_str(out, " = unsafe { core::str::from_utf8_unchecked(core::slice::from_raw_parts(");
                push_str(out, p.name.as_str());
                push_str(out, "_ptr as *const u8, ");
                push_str(out, p.name.as_str());
                push_str(out, "_len as usize)) };\n");
            },
            _ => {},
        }
        i += 1;
    }
    let body = span_text_of(source, func.body_span);
    let code = transform_client_body(body.as_str(), component_ids);
    push_str(out, "    unsafe {\n");
    push_indented(out, code.as_str(), "        ", true);
    push_str(out, "    }\n");
    push_str(out, "}\n\n");
    proof {
        assert(out@ =~= o0 + client_fn_code(source.spec_bytes(), *func, component_ids@, abis@));
    }
}


} // verus!
