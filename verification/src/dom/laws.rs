//! Properties that tie the DOM operations together.

use vstd::prelude::*;
use super::Document;
use super::node::{NodeId, NodeKind};
use super::attributes::{attr_lookup, attr_set, attr_remove, first_attr, is_first_attr, strs_remove, split_state, split_classes};
use super::serialize::{escape_html_spec, escape_attr_spec, html_char, attr_char};
use super::subtree::{text_of, texts_of};
use super::tree::{kids_appended, kids_without};
use super::attributes::index_without;
use super::parse::{decode_from, amp_from, lemma_amp_from, bytes_at, lemma_split_at_ascii};
use vstd::utf8::{encode_utf8, decode_utf8, encode_scalar, valid_utf8};

verus! {

/// Reading an attribute right after setting it gives the value that was set.
pub proof fn law_get_after_set(v: Seq<(Seq<char>, Seq<char>)>, name: Seq<char>, value: Seq<char>)
    ensures
        attr_lookup(attr_set(v, name, value), name) == Some(value),
{
    let k = first_attr(v, name);
    let w = attr_set(v, name, value);
    if k >= 0 {
        let c = choose|k: int| is_first_attr(v, name, k);
        assert(is_first_attr(v, name, c));
        assert(is_first_attr(w, name, k)) by {
            assert forall|j: int| 0 <= j < k implies w[j].0 != name by {
                assert(w[j] == v[j]);
            }
        }
        lemma_first_is(w, name, k);
    } else {
        assert(!exists|j: int| is_first_attr(v, name, j));
        assert forall|j: int| 0 <= j < v.len() implies v[j].0 != name by {
            if v[j].0 == name {
                lemma_some_first(v, name, j);
            }
        }
        assert(is_first_attr(w, name, v.len() as int)) by {
            assert forall|j: int| 0 <= j < v.len() implies w[j].0 != name by {
                assert(w[j] == v[j]);
            }
        }
        lemma_first_is(w, name, v.len() as int);
    }
}

/// Setting one attribute leaves every other attribute's value as it was.
pub proof fn law_set_keeps_others(v: Seq<(Seq<char>, Seq<char>)>, name: Seq<char>, value: Seq<char>, other: Seq<char>)
    requires
        other != name,
    ensures
        attr_lookup(attr_set(v, name, value), other) == attr_lookup(v, other),
{
    let w = attr_set(v, name, value);
    if exists|j: int| is_first_attr(v, other, j) {
        let c = choose|j: int| is_first_attr(v, other, j);
        assert(is_first_attr(w, other, c)) by {
            assert(w[c] == v[c] || w[c].0 == name);
            if w[c] != v[c] {
                assert(v[c].0 == other);
                assert(first_attr(v, name) == c);
                lemma_first_of(v, name);
            }
            assert forall|j: int| 0 <= j < c implies w[j].0 != other by {
                if w[j] != v[j] {
                    assert(w[j].0 == name);
                }
            }
        }
        lemma_first_is(w, other, c);
        lemma_first_is(v, other, c);
    } else {
        assert forall|j: int| 0 <= j < w.len() implies w[j].0 != other by {
            if j < v.len() {
                if w[j] == v[j] && v[j].0 == other {
                    lemma_some_first(v, other, j);
                }
            }
        }
        lemma_no_first(w, other);
        lemma_no_first_v(v, other);
    }
}

/// After removing an attribute it is absent.
pub proof fn law_removed_is_absent(v: Seq<(Seq<char>, Seq<char>)>, name: Seq<char>)
    ensures
        attr_lookup(attr_remove(v, name), name) is None,
    decreases v.len(),
{
    lemma_remove_absent(v, name);
    lemma_no_first(attr_remove(v, name), name);
}

proof fn lemma_remove_absent(v: Seq<(Seq<char>, Seq<char>)>, name: Seq<char>)
    ensures
        forall|j: int| 0 <= j < attr_remove(v, name).len() ==> attr_remove(v, name)[j].0 != name,
    decreases v.len(),
{
    if v.len() > 0 {
        lemma_remove_absent(v.drop_last(), name);
        let r = attr_remove(v.drop_last(), name);
        if v.last().0 != name {
            assert forall|j: int| 0 <= j < r.push(v.last()).len() implies r.push(v.last())[j].0 != name by {
                if j < r.len() {
                    assert(r.push(v.last())[j] == r[j]);
                }
            }
        }
    }
}

proof fn lemma_first_is(v: Seq<(Seq<char>, Seq<char>)>, name: Seq<char>, k: int)
    requires
        is_first_attr(v, name, k),
    ensures
        first_attr(v, name) == k,
{
    let c = choose|j: int| is_first_attr(v, name, j);
    assert(is_first_attr(v, name, c));
    if c < k {
        assert(v[c].0 != name);
    }
    if k < c {
        assert(v[k].0 != name);
    }
}

proof fn lemma_first_of(v: Seq<(Seq<char>, Seq<char>)>, name: Seq<char>)
    requires
        first_attr(v, name) >= 0,
    ensures
        is_first_attr(v, name, first_attr(v, name)),
{
}

proof fn lemma_some_first(v: Seq<(Seq<char>, Seq<char>)>, name: Seq<char>, j: int)
    requires
        0 <= j < v.len(),
        v[j].0 == name,
    ensures
        exists|k: int| is_first_attr(v, name, k),
    decreases j,
{
    if exists|i: int| 0 <= i < j && v[i].0 == name {
        let i = choose|i: int| 0 <= i < j && v[i].0 == name;
        lemma_some_first(v, name, i);
    } else {
        assert(is_first_attr(v, name, j));
    }
}

proof fn lemma_no_first(v: Seq<(Seq<char>, Seq<char>)>, name: Seq<char>)
    requires
        forall|j: int| 0 <= j < v.len() ==> v[j].0 != name,
    ensures
        attr_lookup(v, name) is None,
{
    if exists|k: int| is_first_attr(v, name, k) {
        let c = choose|k: int| is_first_attr(v, name, k);
        assert(v[c].0 == name);
    }
}

proof fn lemma_no_first_v(v: Seq<(Seq<char>, Seq<char>)>, name: Seq<char>)
    requires
        !exists|k: int| is_first_attr(v, name, k),
    ensures
        attr_lookup(v, name) is None,
{
}

/// After a class is removed from a class list it is no longer in it.
pub proof fn law_removed_class_absent(v: Seq<Seq<char>>, c: Seq<char>)
    ensures
        !strs_remove(v, c).contains(c),
    decreases v.len(),
{
    if v.len() > 0 {
        law_removed_class_absent(v.drop_last(), c);
        let r = strs_remove(v.drop_last(), c);
        if v.last() != c {
            assert forall|i: int| 0 <= i < r.push(v.last()).len() implies r.push(v.last())[i] != c by {
                if i < r.len() {
                    assert(r.push(v.last())[i] == r[i]);
                }
            }
        }
    }
}

/// The class names read from a `class` value are non-empty and hold no space.
pub proof fn law_split_pieces(s: Seq<char>)
    ensures
        forall|i: int| 0 <= i < split_classes(s).len() ==> (#[trigger] split_classes(s)[i]).len() > 0 && !split_classes(s)[i].contains(' '),
{
    lemma_split_state(s);
    let (d, cur) = split_state(s);
    if cur.len() > 0 {
        assert forall|i: int| 0 <= i < d.push(cur).len() implies (#[trigger] d.push(cur)[i]).len() > 0 && !d.push(cur)[i].contains(' ') by {
            if i < d.len() {
                assert(d.push(cur)[i] == d[i]);
            }
        }
    }
}

proof fn lemma_split_state(s: Seq<char>)
    ensures
        forall|i: int| 0 <= i < split_state(s).0.len() ==> (#[trigger] split_state(s).0[i]).len() > 0 && !split_state(s).0[i].contains(' '),
        !split_state(s).1.contains(' '),
    decreases s.len(),
{
    if s.len() > 0 {
        lemma_split_state(s.drop_last());
        let (d, cur) = split_state(s.drop_last());
        if s.last() == ' ' {
            if cur.len() > 0 {
                assert forall|i: int| 0 <= i < d.push(cur).len() implies (#[trigger] d.push(cur)[i]).len() > 0 && !d.push(cur)[i].contains(' ') by {
                    if i < d.len() {
                        assert(d.push(cur)[i] == d[i]);
                    }
                }
            }
            assert(!Seq::<char>::empty().contains(' '));
        } else {
            assert forall|i: int| 0 <= i < cur.push(s.last()).len() implies cur.push(s.last())[i] != ' ' by {
                if i < cur.len() {
                    assert(cur.push(s.last())[i] == cur[i]);
                }
            }
        }
    }
}

/// Escaped text holds no `<` or `>`, so it cannot open or close a tag.
pub proof fn law_escaped_text_has_no_tags(s: Seq<char>)
    ensures
        !escape_html_spec(s).contains('<'),
        !escape_html_spec(s).contains('>'),
    decreases s.len(),
{
    if s.len() > 0 {
        law_escaped_text_has_no_tags(s.drop_last());
        let a = escape_html_spec(s.drop_last());
        let b = html_char(s.last());
        reveal_strlit("&amp;");
        reveal_strlit("&lt;");
        reveal_strlit("&gt;");
        reveal_strlit("&quot;");
        reveal_strlit("&#x27;");
        assert(!b.contains('<') && !b.contains('>'));
        assert forall|i: int| 0 <= i < (a + b).len() implies (a + b)[i] != '<' && (a + b)[i] != '>' by {
            if i < a.len() {
                assert((a + b)[i] == a[i]);
            } else {
                assert((a + b)[i] == b[i - a.len()]);
            }
        }
    }
}

/// Escaping distributes over joined text.
proof fn lemma_escape_concat(a: Seq<char>, b: Seq<char>)
    ensures
        escape_html_spec(a + b) == escape_html_spec(a) + escape_html_spec(b),
    decreases b.len(),
{
    if b.len() == 0 {
        assert(a + b =~= a);
        assert(escape_html_spec(a) + Seq::<char>::empty() =~= escape_html_spec(a));
    } else {
        lemma_escape_concat(a, b.drop_last());
        assert((a + b).drop_last() =~= a + b.drop_last());
        assert((a + b).last() == b.last());
        assert(escape_html_spec(a) + escape_html_spec(b.drop_last()) + html_char(b.last())
            =~= escape_html_spec(a) + (escape_html_spec(b.drop_last()) + html_char(b.last())));
    }
}

/// UTF-8 encoding distributes over joined text.
proof fn lemma_encode_concat(a: Seq<char>, b: Seq<char>)
    ensures
        encode_utf8(a + b) == encode_utf8(a) + encode_utf8(b),
    decreases a.len(),
{
    if a.len() == 0 {
        assert(a + b =~= b);
        assert(Seq::<u8>::empty() + encode_utf8(b) =~= encode_utf8(b));
    } else {
        lemma_encode_concat(a.drop_first(), b);
        assert((a + b).drop_first() =~= a.drop_first() + b);
        assert((a + b)[0] == a[0]);
        assert(encode_scalar(a[0] as u32) + encode_utf8(a.drop_first()) + encode_utf8(b)
            =~= encode_scalar(a[0] as u32) + (encode_utf8(a.drop_first()) + encode_utf8(b)));
    }
}

/// The encoding of a character other than `&` holds no `&` byte.
proof fn lemma_no_amp_byte(c: char)
    requires
        c != '&',
    ensures
        encode_utf8(seq![c]).len() > 0,
        forall|t: int| 0 <= t < encode_utf8(seq![c]).len() ==> #[trigger] encode_utf8(seq![c])[t] != 0x26,
{
    let v = c as u32;
    vstd::utf8::char_is_scalar(c);
    assert(seq![c].drop_first() =~= Seq::<char>::empty());
    assert(encode_utf8(seq![c].drop_first()) =~= Seq::<u8>::empty());
    assert(seq![c][0] == c);
    assert(encode_utf8(seq![c]) == encode_scalar(v) + encode_utf8(seq![c].drop_first()));
    assert(encode_utf8(seq![c]) =~= encode_scalar(v));
    assert(v != 0x26);
    if vstd::utf8::has_width_1_encoding(v) {
        assert((v & 0x7F) as u8 != 0x26u8) by (bit_vector)
            requires v <= 0x7F, v != 0x26;
    } else {
        assert(forall|x: u8| #![auto] (0x80u8 | x) != 0x26u8) by (bit_vector);
        assert(forall|x: u8| #![auto] (0xC0u8 | x) != 0x26u8) by (bit_vector);
        assert(forall|x: u8| #![auto] (0xE0u8 | x) != 0x26u8) by (bit_vector);
        assert(forall|x: u8| #![auto] (0xF0u8 | x) != 0x26u8) by (bit_vector);
    }
}

/// No `&` byte between `i` and `j` leaves the next `&` the same.
proof fn lemma_amp_same(b: Seq<u8>, i: int, j: int)
    requires
        0 <= i <= j <= b.len(),
        forall|t: int| i <= t < j ==> b[t] != 0x26,
    ensures
        amp_from(b, i) == amp_from(b, j),
    decreases j - i,
{
    if i < j {
        lemma_amp_same(b, i + 1, j);
    }
}

/// The bytes of the five entities that escaping writes.
proof fn lemma_entity_bytes()
    ensures
        encode_utf8(html_char('&')) == seq![0x26u8, 0x61, 0x6d, 0x70, 0x3b],
        encode_utf8(html_char('<')) == seq![0x26u8, 0x6c, 0x74, 0x3b],
        encode_utf8(html_char('>')) == seq![0x26u8, 0x67, 0x74, 0x3b],
        encode_utf8(html_char('"')) == seq![0x26u8, 0x71, 0x75, 0x6f, 0x74, 0x3b],
        encode_utf8(html_char('\'')) == seq![0x26u8, 0x23, 0x78, 0x32, 0x37, 0x3b],
{
    reveal_strlit("&amp;");
    reveal_strlit("&lt;");
    reveal_strlit("&gt;");
    reveal_strlit("&quot;");
    reveal_strlit("&#x27;");
    let e1 = html_char('&');
    let e2 = html_char('<');
    let e3 = html_char('>');
    let e4 = html_char('"');
    let e5 = html_char('\'');
    assert(vstd::utf8::is_ascii_chars(e1));
    assert(vstd::utf8::is_ascii_chars(e2));
    assert(vstd::utf8::is_ascii_chars(e3));
    assert(vstd::utf8::is_ascii_chars(e4));
    assert(vstd::utf8::is_ascii_chars(e5));
    vstd::utf8::is_ascii_chars_encode_utf8(e1);
    vstd::utf8::is_ascii_chars_encode_utf8(e2);
    vstd::utf8::is_ascii_chars_encode_utf8(e3);
    vstd::utf8::is_ascii_chars_encode_utf8(e4);
    vstd::utf8::is_ascii_chars_encode_utf8(e5);
    assert(encode_utf8(e1) =~= seq![0x26u8, 0x61, 0x6d, 0x70, 0x3b]);
    assert(encode_utf8(e2) =~= seq![0x26u8, 0x6c, 0x74, 0x3b]);
    assert(encode_utf8(e3) =~= seq![0x26u8, 0x67, 0x74, 0x3b]);
    assert(encode_utf8(e4) =~= seq![0x26u8, 0x71, 0x75, 0x6f, 0x74, 0x3b]);
    assert(encode_utf8(e5) =~= seq![0x26u8, 0x23, 0x78, 0x32, 0x37, 0x3b]);
}

/// The next `&` found is an `&`.
proof fn lemma_amp_at(b: Seq<u8>, i: int)
    requires
        0 <= i <= b.len(),
    ensures
        amp_from(b, i) < b.len() ==> b[amp_from(b, i)] == 0x26,
    decreases b.len() - i,
{
    if i < b.len() && b[i] != 0x26 {
        lemma_amp_at(b, i + 1);
    }
}

/// An entity that escaping wrote decodes to its character.
proof fn lemma_entity_step(b: Seq<u8>, i: int, c: char)
    requires
        c == '&' || c == '<' || c == '>' || c == '"' || c == '\'',
        0 <= i,
        i + encode_utf8(html_char(c)).len() <= b.len(),
        b.subrange(i, i + encode_utf8(html_char(c)).len()) == encode_utf8(html_char(c)),
    ensures
        decode_from(b, i) == seq![c] + decode_from(b, i + encode_utf8(html_char(c)).len()),
{
    lemma_entity_bytes();
    let hb = encode_utf8(html_char(c));
    assert(b[i] == hb[0]);
    assert(b[i + 1] == hb[1]);
    assert(b[i] == 0x26);
    if c == '&' {
        assert(bytes_at(b, i, seq![0x26u8, 0x61, 0x6d, 0x70, 0x3b]));
    } else {
        assert(!bytes_at(b, i, seq![0x26u8, 0x61, 0x6d, 0x70, 0x3b])) by {
            if bytes_at(b, i, seq![0x26u8, 0x61, 0x6d, 0x70, 0x3b]) {
                assert(b.subrange(i, i + 5)[1] == b[i + 1]);
            }
        }
        if c == '<' {
            assert(bytes_at(b, i, seq![0x26u8, 0x6c, 0x74, 0x3b]));
        } else {
            assert(!bytes_at(b, i, seq![0x26u8, 0x6c, 0x74, 0x3b])) by {
                if bytes_at(b, i, seq![0x26u8, 0x6c, 0x74, 0x3b]) {
                    assert(b.subrange(i, i + 4)[1] == b[i + 1]);
                }
            }
            if c == '>' {
                assert(bytes_at(b, i, seq![0x26u8, 0x67, 0x74, 0x3b]));
            } else {
                assert(!bytes_at(b, i, seq![0x26u8, 0x67, 0x74, 0x3b])) by {
                    if bytes_at(b, i, seq![0x26u8, 0x67, 0x74, 0x3b]) {
                        assert(b.subrange(i, i + 4)[1] == b[i + 1]);
                    }
                }
                if c == '"' {
                    assert(bytes_at(b, i, seq![0x26u8, 0x71, 0x75, 0x6f, 0x74, 0x3b]));
                } else {
                    assert(!bytes_at(b, i, seq![0x26u8, 0x71, 0x75, 0x6f, 0x74, 0x3b])) by {
                        if bytes_at(b, i, seq![0x26u8, 0x71, 0x75, 0x6f, 0x74, 0x3b]) {
                            assert(b.subrange(i, i + 6)[1] == b[i + 1]);
                        }
                    }
                    assert(bytes_at(b, i, seq![0x26u8, 0x23, 0x78, 0x32, 0x37, 0x3b]));
                }
            }
        }
    }
}

/// A character written as itself (its bytes hold no `&`) decodes to itself, in
/// front of whatever valid UTF-8 follows.
proof fn lemma_plain_step(b: Seq<u8>, i: int, c: char)
    requires
        c != '&',
        0 <= i,
        i + encode_utf8(seq![c]).len() <= b.len(),
        b.subrange(i, i + encode_utf8(seq![c]).len()) == encode_utf8(seq![c]),
        valid_utf8(b.subrange(i + encode_utf8(seq![c]).len(), b.len() as int)),
    ensures
        decode_from(b, i) == seq![c] + decode_from(b, i + encode_utf8(seq![c]).len()),
{
    let hb = encode_utf8(seq![c]);
    let i2 = i + hb.len();
    let rb = b.subrange(i2, b.len() as int);
    lemma_no_amp_byte(c);
    assert(b[i] == hb[0]);
    assert forall|t: int| i <= t < i2 implies b[t] != 0x26 by {
        assert(b[t] == hb[t - i]);
    }
    lemma_amp_same(b, i, i2);
    lemma_amp_from(b, i2);
    lemma_amp_at(b, i2);
    let k = amp_from(b, i2);
    let kk = k - i2;
    assert(kk == rb.len() || rb[kk] == 0x26) by {
        if k < b.len() {
            assert(b[k] == rb[kk]);
        }
    }
    lemma_split_at_ascii(rb, kk);
    let x = rb.subrange(0, kk);
    assert(x =~= b.subrange(i2, k));
    assert(b.subrange(i, k) =~= hb + x);
    vstd::utf8::decode_utf8_encode_utf8(x);
    let d = decode_utf8(x);
    lemma_encode_concat(seq![c], d);
    vstd::utf8::encode_utf8_decode_utf8(seq![c] + d);
    assert(encode_utf8(d) == x);
    assert(hb + x == encode_utf8(seq![c] + d));
    assert(b.subrange(i, k) == encode_utf8(seq![c] + d));
    assert(decode_utf8(b.subrange(i, k)) == seq![c] + d);
    if k > i2 {
        assert(b[i2] != 0x26);
        assert(decode_from(b, i2) == d + decode_from(b, k));
    } else {
        assert(x =~= Seq::<u8>::empty());
        assert(d =~= Seq::<char>::empty()) by {
            if d.len() > 0 {
                lemma_no_amp_byte_len(d);
            }
        }
    }
    assert(decode_from(b, i) == decode_utf8(b.subrange(i, k)) + decode_from(b, k));
    assert(decode_from(b, i) =~= seq![c] + decode_from(b, i2));
}

/// The encoded escape of `s`, from the end of the escape of its first `m`
/// characters on, decodes to the rest of `s`.
proof fn lemma_escape_decodes_from(s: Seq<char>, m: int)
    requires
        0 <= m <= s.len(),
    ensures
        decode_from(encode_utf8(escape_html_spec(s)), encode_utf8(escape_html_spec(s.take(m))).len() as int)
            == s.skip(m),
    decreases s.len() - m,
{
    let b = encode_utf8(escape_html_spec(s));
    let i = encode_utf8(escape_html_spec(s.take(m))).len() as int;
    assert(s =~= s.take(m) + s.skip(m));
    lemma_escape_concat(s.take(m), s.skip(m));
    lemma_encode_concat(escape_html_spec(s.take(m)), escape_html_spec(s.skip(m)));
    let tail = encode_utf8(escape_html_spec(s.skip(m)));
    assert(b == encode_utf8(escape_html_spec(s.take(m))) + tail);
    assert(b.subrange(i, b.len() as int) =~= tail);
    if m == s.len() {
        assert(s.skip(m) =~= Seq::<char>::empty());
        assert(escape_html_spec(s.skip(m)) == Seq::<char>::empty());
        assert(tail =~= Seq::<u8>::empty());
    } else {
        let c = s[m];
        lemma_escape_decodes_from(s, m + 1);
        let rest = s.skip(m + 1);
        assert(s.skip(m) =~= seq![c] + rest);
        lemma_escape_concat(seq![c], rest);
        assert(seq![c].drop_last() =~= Seq::<char>::empty());
        assert(escape_html_spec(Seq::<char>::empty()) == Seq::<char>::empty());
        assert(seq![c].last() == c);
        assert(escape_html_spec(seq![c]) =~= html_char(c));
        let hb = encode_utf8(html_char(c));
        let rb = encode_utf8(escape_html_spec(rest));
        lemma_encode_concat(html_char(c), escape_html_spec(rest));
        assert(tail == hb + rb);
        assert(s.take(m + 1).drop_last() =~= s.take(m));
        assert(s.take(m + 1).last() == c);
        lemma_encode_concat(escape_html_spec(s.take(m)), html_char(c));
        let i2 = i + hb.len();
        assert(encode_utf8(escape_html_spec(s.take(m + 1))).len() == i2);
        assert(b.subrange(i, i2) =~= hb) by {
            assert forall|t: int| 0 <= t < hb.len() implies b.subrange(i, i2)[t] == hb[t] by {
                assert(b[i + t] == tail[t]);
            }
        }
        assert(b.subrange(i2, b.len() as int) =~= rb);
        vstd::utf8::encode_utf8_valid_utf8(escape_html_spec(rest));
        if c == '&' || c == '<' || c == '>' || c == '"' || c == '\'' {
            lemma_entity_step(b, i, c);
        } else {
            assert(html_char(c) == seq![c]);
            lemma_plain_step(b, i, c);
        }
    }
}

/// A non-empty text has a non-empty encoding.
proof fn lemma_no_amp_byte_len(d: Seq<char>)
    requires
        d.len() > 0,
    ensures
        encode_utf8(d).len() > 0,
{
    vstd::utf8::char_is_scalar(d[0]);
}

/// Escaped text reads back as itself: decoding the entities of the UTF-8 bytes of
/// `escape_html(s)` (as the fragment parser does with text) gives `s` again, for
/// every text `s`. In particular each `&` of `s` is written so that it is not read
/// as the start of an entity.
pub proof fn law_escaped_text_decodes(s: Seq<char>)
    ensures
        decode_from(encode_utf8(escape_html_spec(s)), 0) == s,
{
    lemma_escape_decodes_from(s, 0);
    assert(s.take(0) =~= Seq::<char>::empty());
    assert(escape_html_spec(s.take(0)) == Seq::<char>::empty());
    assert(encode_utf8(Seq::<char>::empty()) =~= Seq::<u8>::empty());
    assert(s.skip(0) =~= s);
}

/// Attribute escaping distributes over joined text.
proof fn lemma_attr_concat(a: Seq<char>, b: Seq<char>)
    ensures
        escape_attr_spec(a + b) == escape_attr_spec(a) + escape_attr_spec(b),
    decreases b.len(),
{
    if b.len() == 0 {
        assert(a + b =~= a);
        assert(escape_attr_spec(a) + Seq::<char>::empty() =~= escape_attr_spec(a));
    } else {
        lemma_attr_concat(a, b.drop_last());
        assert((a + b).drop_last() =~= a + b.drop_last());
        assert((a + b).last() == b.last());
        assert(escape_attr_spec(a) + escape_attr_spec(b.drop_last()) + attr_char(b.last())
            =~= escape_attr_spec(a) + (escape_attr_spec(b.drop_last()) + attr_char(b.last())));
    }
}

/// The encoded attribute escape of `s`, from the end of the escape of its first `m`
/// characters on, decodes to the rest of `s`.
proof fn lemma_attr_decodes_from(s: Seq<char>, m: int)
    requires
        0 <= m <= s.len(),
    ensures
        decode_from(encode_utf8(escape_attr_spec(s)), encode_utf8(escape_attr_spec(s.take(m))).len() as int)
            == s.skip(m),
    decreases s.len() - m,
{
    let b = encode_utf8(escape_attr_spec(s));
    let i = encode_utf8(escape_attr_spec(s.take(m))).len() as int;
    assert(s =~= s.take(m) + s.skip(m));
    lemma_attr_concat(s.take(m), s.skip(m));
    lemma_encode_concat(escape_attr_spec(s.take(m)), escape_attr_spec(s.skip(m)));
    let tail = encode_utf8(escape_attr_spec(s.skip(m)));
    assert(b == encode_utf8(escape_attr_spec(s.take(m))) + tail);
    assert(b.subrange(i, b.len() as int) =~= tail);
    if m == s.len() {
        assert(s.skip(m) =~= Seq::<char>::empty());
        assert(escape_attr_spec(s.skip(m)) == Seq::<char>::empty());
        assert(tail =~= Seq::<u8>::empty());
    } else {
        let c = s[m];
        lemma_attr_decodes_from(s, m + 1);
        let rest = s.skip(m + 1);
        assert(s.skip(m) =~= seq![c] + rest);
        lemma_attr_concat(seq![c], rest);
        assert(seq![c].drop_last() =~= Seq::<char>::empty());
        assert(escape_attr_spec(Seq::<char>::empty()) == Seq::<char>::empty());
        assert(seq![c].last() == c);
        assert(escape_attr_spec(seq![c]) =~= attr_char(c));
        let hb = encode_utf8(attr_char(c));
        let rb = encode_utf8(escape_attr_spec(rest));
        lemma_encode_concat(attr_char(c), escape_attr_spec(rest));
        assert(tail == hb + rb);
        assert(s.take(m + 1).drop_last() =~= s.take(m));
        assert(s.take(m + 1).last() == c);
        lemma_encode_concat(escape_attr_spec(s.take(m)), attr_char(c));
        let i2 = i + hb.len();
        assert(encode_utf8(escape_attr_spec(s.take(m + 1))).len() == i2);
        assert(b.subrange(i, i2) =~= hb) by {
            assert forall|t: int| 0 <= t < hb.len() implies b.subrange(i, i2)[t] == hb[t] by {
                assert(b[i + t] == tail[t]);
            }
        }
        assert(b.subrange(i2, b.len() as int) =~= rb);
        vstd::utf8::encode_utf8_valid_utf8(escape_attr_spec(rest));
        if c == '&' || c == '<' || c == '>' || c == '"' {
            assert(attr_char(c) == html_char(c));
            lemma_entity_step(b, i, c);
        } else {
            assert(attr_char(c) == seq![c]);
            lemma_plain_step(b, i, c);
        }
    }
}

/// An escaped attribute value reads back as itself: decoding the entities of the
/// UTF-8 bytes of `escape_attr(s)` gives `s` again, for every text `s`.
pub proof fn law_escaped_attr_decodes(s: Seq<char>)
    ensures
        decode_from(encode_utf8(escape_attr_spec(s)), 0) == s,
{
    lemma_attr_decodes_from(s, 0);
    assert(s.take(0) =~= Seq::<char>::empty());
    assert(escape_attr_spec(s.take(0)) == Seq::<char>::empty());
    assert(encode_utf8(Seq::<char>::empty()) =~= Seq::<u8>::empty());
    assert(s.skip(0) =~= s);
}

/// Escaped text holds no `"` or `'` either: every special character of HTML is
/// written as an entity.
pub proof fn law_escaped_text_has_no_quotes(s: Seq<char>)
    ensures
        !escape_html_spec(s).contains('"'),
        !escape_html_spec(s).contains('\''),
    decreases s.len(),
{
    if s.len() > 0 {
        law_escaped_text_has_no_quotes(s.drop_last());
        let a = escape_html_spec(s.drop_last());
        let b = html_char(s.last());
        reveal_strlit("&amp;");
        reveal_strlit("&lt;");
        reveal_strlit("&gt;");
        reveal_strlit("&quot;");
        reveal_strlit("&#x27;");
        assert(!b.contains('"') && !b.contains('\''));
        assert forall|i: int| 0 <= i < (a + b).len() implies (a + b)[i] != '"' && (a + b)[i] != '\'' by {
            if i < a.len() {
                assert((a + b)[i] == a[i]);
            } else {
                assert((a + b)[i] == b[i - a.len()]);
            }
        }
    }
}

/// An escaped attribute value holds no `"`, so it cannot end the quoted value.
pub proof fn law_escaped_attr_has_no_quote(s: Seq<char>)
    ensures
        !escape_attr_spec(s).contains('"'),
    decreases s.len(),
{
    if s.len() > 0 {
        law_escaped_attr_has_no_quote(s.drop_last());
        let a = escape_attr_spec(s.drop_last());
        let b = attr_char(s.last());
        reveal_strlit("&amp;");
        reveal_strlit("&lt;");
        reveal_strlit("&gt;");
        reveal_strlit("&quot;");
        assert(!b.contains('"'));
        assert forall|i: int| 0 <= i < (a + b).len() implies (a + b)[i] != '"' by {
            if i < a.len() {
                assert((a + b)[i] == a[i]);
            } else {
                assert((a + b)[i] == b[i - a.len()]);
            }
        }
    }
}

/// Appending moves the child to the end of the new parent's children and out of
/// any other parent's children.
pub proof fn law_append_places_last(doc: Document, parent: NodeId, child: NodeId, p2: NodeId)
    requires
        doc.wf(),
        doc.valid(parent),
        doc.valid(child),
        doc.valid(p2),
        p2 != parent,
    ensures
        kids_appended(doc.kids@, doc.nodes@[child.0 as int].parent, parent, child)[parent.0 as int].last() == child,
        !kids_appended(doc.kids@, doc.nodes@[child.0 as int].parent, parent, child)[p2.0 as int].contains(child),
{
    let k = kids_appended(doc.kids@, doc.nodes@[child.0 as int].parent, parent, child);
    assert(doc.node_links_ok(child.0 as int));
    assert(doc.node_links_ok(p2.0 as int));
    let ks = doc.kids@[p2.0 as int];
    if k[p2.0 as int].contains(child) {
        let i = choose|i: int| 0 <= i < k[p2.0 as int].len() && k[p2.0 as int][i] == child;
        match doc.nodes@[child.0 as int].parent {
            Some(q) => {
                if q == p2 {
                    let ix = ks.index_of(child);
                    assert(ks[ix] == child);
                    let r = ks.remove(ix);
                    assert(k[p2.0 as int] == r);
                    if i < ix {
                        assert(r[i] == ks[i]);
                    } else {
                        assert(r[i] == ks[i + 1]);
                    }
                } else {
                    assert(k[p2.0 as int] == ks);
                    assert(doc.child_links_ok(p2.0 as int, i));
                }
            },
            None => {
                assert(k[p2.0 as int] == ks);
                assert(doc.child_links_ok(p2.0 as int, i));
            },
        }
    }
}

/// A node whose only child is a text node has exactly that text as its content.
pub proof fn law_text_content_of_single_text(doc: Document, id: NodeId, t: NodeId, text: Seq<char>)
    requires
        doc.wf(),
        doc.valid(id),
        doc.valid(t),
        !(doc.nodes@[id.0 as int].kind is Text),
        doc.kids@[id.0 as int] == seq![t],
        doc.nodes@[t.0 as int].kind matches NodeKind::Text(s) && s@ == text,
    ensures
        doc.text_content_of(id) == text,
{
    let n = doc.nodes@.len();
    assert(n > 0);
    let cs = doc.kids@[id.0 as int];
    assert(cs.drop_last() =~= Seq::<NodeId>::empty());
    assert(texts_of(doc.nodes@, doc.kids@, cs, (n - 1) as nat)
        == texts_of(doc.nodes@, doc.kids@, Seq::<NodeId>::empty(), (n - 1) as nat) + text_of(doc.nodes@, doc.kids@, t, (n - 1) as nat));
    assert(Seq::<char>::empty() + text =~= text);
}


/// After an element gets id `v`, looking `v` up finds it, and its old id (when
/// different) no longer finds anything.
pub proof fn law_id_lookup_after_set(m: Map<Seq<char>, NodeId>, old_id: Option<String>, v: Seq<char>, id: NodeId)
    ensures
        index_without(m, old_id).insert(v, id).contains_key(v),
        index_without(m, old_id).insert(v, id)[v] == id,
        old_id is Some && old_id->0@ != v ==> !index_without(m, old_id).insert(v, id).contains_key(old_id->0@),
{
}

/// Removing a child takes it out of its parent's children.
pub proof fn law_remove_detaches(doc: Document, parent: NodeId, child: NodeId)
    requires
        doc.wf(),
        doc.valid(child),
        doc.nodes@[child.0 as int].parent == Some(parent),
    ensures
        !kids_without(doc.kids@, Some(parent), child)[parent.0 as int].contains(child),
        kids_without(doc.kids@, Some(parent), child)[parent.0 as int].len() + 1 == doc.kids@[parent.0 as int].len(),
{
    assert(doc.node_links_ok(child.0 as int));
    assert(doc.node_links_ok(parent.0 as int));
    let ks = doc.kids@[parent.0 as int];
    let ix = ks.index_of(child);
    assert(ks[ix] == child);
    let r = ks.remove(ix);
    assert forall|i: int| 0 <= i < r.len() implies r[i] != child by {
        if i < ix {
            assert(r[i] == ks[i]);
        } else {
            assert(r[i] == ks[i + 1]);
        }
    }
}

} // verus!
