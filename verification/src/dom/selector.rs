//! CSS selector parser and matcher.
//!
//! Supports: tag, .class, #id, [attr], [attr=val], [attr^=val], [attr$=val],
//! [attr*=val], combinators (descendant ` `, child `>`, adjacent `+`, general `~`),
//! pseudo-classes (:first-child, :last-child, :nth-child(an+b), :not()),
//! compound selectors, and comma-separated selector lists.

use vstd::prelude::*;
use crate::text::{chars_of, string_of, is_alphanumeric, is_alphabetic, alphanumeric, alphabetic, str_eq, occurs_at, occurs_in};
use super::Document;
use super::parse::char_from;
use super::node::{NodeId, NodeKind};
use super::attributes::{attrs_view, strs_view, first_attr, element_of};

verus! {

/// A parsed CSS selector (possibly a comma-separated list).
pub struct SelectorList {
    pub selectors: Vec<ComplexSelector>,
}

/// A complex selector: a chain of compound selectors linked by combinators.
/// Stored right-to-left: `[0]` is the key (rightmost) selector.
pub struct ComplexSelector {
    pub parts: Vec<(Combinator, CompoundSelector)>,
}

/// How two compound selectors are related.
#[derive(Clone, Copy, PartialEq, Eq, Structural, Debug)]
pub enum Combinator {
    /// The key selector (no combinator, just the rightmost part).
    Key,
    /// Descendant (whitespace).
    Descendant,
    /// Direct child (`>`).
    Child,
    /// Adjacent sibling (`+`).
    AdjacentSibling,
    /// General sibling (`~`).
    GeneralSibling,
}

/// A compound selector: a sequence of simple selectors applied to the same element.
pub struct CompoundSelector {
    pub parts: Vec<SimpleSelector>,
}

/// A single simple selector.
pub enum SimpleSelector {
    Universal,
    Tag(String),
    Class(String),
    Id(String),
    Attribute(AttrSelector),
    PseudoClass(PseudoClass),
    Not(CompoundSelector),
}

/// Attribute selector operators.
pub struct AttrSelector {
    pub name: String,
    pub op: Option<AttrOp>,
    pub value: Option<String>,
}

/// How an attribute value is compared.
#[derive(Clone, Copy, PartialEq, Eq, Structural, Debug)]
pub enum AttrOp {
    Equals,
    StartsWith,
    EndsWith,
    Contains,
}

/// Pseudo-class selectors.
#[derive(Clone, Copy, PartialEq, Eq, Structural, Debug)]
pub enum PseudoClass {
    FirstChild,
    LastChild,
    /// `an+b`
    NthChild(i32, i32),
}

/// Selector whitespace.
pub open spec fn is_sel_space(c: char) -> bool {
    c == ' ' || c == '\t' || c == '\n' || c == '\r'
}

/// A character that may appear in an identifier.
pub open spec fn is_ident_char(c: char) -> bool {
    alphanumeric(c) || c == '-' || c == '_'
}

/// The length of the run of identifier characters of `s` starting at `i`.
pub open spec fn ident_end(s: Seq<char>, i: int) -> int
    decreases s.len() - i,
{
    if i < 0 || i >= s.len() || !is_ident_char(s[i]) { i } else { ident_end(s, i + 1) }
}

/// The end of the run of whitespace of `s` starting at `i`.
pub open spec fn space_end(s: Seq<char>, i: int) -> int
    decreases s.len() - i,
{
    if i < 0 || i >= s.len() || !is_sel_space(s[i]) { i } else { space_end(s, i + 1) }
}

/// The end of the run of ASCII digits of `s` starting at `i`.
pub open spec fn digits_end(s: Seq<char>, i: int) -> int
    decreases s.len() - i,
{
    if i < 0 || i >= s.len() || !('0' <= s[i] <= '9') { i } else { digits_end(s, i + 1) }
}

/// The decimal value of the digits `s[from..to]`.
pub open spec fn digits_value(s: Seq<char>, from: int, to: int) -> int
    decreases to - from,
{
    if to <= from { 0 } else { digits_value(s, from, to - 1) * 10 + (s[to - 1] as int - '0' as int) }
}

pub proof fn lemma_ident_end(s: Seq<char>, i: int)
    requires
        0 <= i <= s.len(),
    ensures
        i <= ident_end(s, i) <= s.len(),
        forall|k: int| i <= k < ident_end(s, i) ==> is_ident_char(#[trigger] s[k]),
        ident_end(s, i) < s.len() ==> !is_ident_char(s[ident_end(s, i)]),
    decreases s.len() - i,
{
    if i < s.len() && is_ident_char(s[i]) {
        lemma_ident_end(s, i + 1);
    }
}

pub proof fn lemma_space_end(s: Seq<char>, i: int)
    requires
        0 <= i <= s.len(),
    ensures
        i <= space_end(s, i) <= s.len(),
        space_end(s, i) < s.len() ==> !is_sel_space(s[space_end(s, i)]),
    decreases s.len() - i,
{
    if i < s.len() && is_sel_space(s[i]) {
        lemma_space_end(s, i + 1);
    }
}

pub proof fn lemma_digits_end(s: Seq<char>, i: int)
    requires
        0 <= i <= s.len(),
    ensures
        i <= digits_end(s, i) <= s.len(),
        digits_end(s, i) < s.len() ==> !('0' <= s[digits_end(s, i)] <= '9'),
    decreases s.len() - i,
{
    if i < s.len() && '0' <= s[i] <= '9' {
        lemma_digits_end(s, i + 1);
    }
}

/// A compound selector has at least one part.
pub open spec fn compound_ok(c: CompoundSelector) -> bool {
    c.parts@.len() > 0
}

/// A complex selector: a key part with no combinator, then parts each linked by one.
pub open spec fn complex_ok(c: ComplexSelector) -> bool {
    &&& c.parts@.len() > 0
    &&& c.parts@[0].0 == Combinator::Key
    &&& forall|i: int| 1 <= i < c.parts@.len() ==> (#[trigger] c.parts@[i]).0 != Combinator::Key
    &&& forall|i: int| 0 <= i < c.parts@.len() ==> compound_ok(#[trigger] c.parts@[i].1)
}

/// A selector list holds at least one well-formed complex selector.
pub open spec fn selector_list_ok(l: SelectorList) -> bool {
    &&& l.selectors@.len() > 0
    &&& forall|i: int| 0 <= i < l.selectors@.len() ==> complex_ok(#[trigger] l.selectors@[i])
}

/// What a simple selector says, as plain values.
pub enum SimpleView {
    Universal,
    Tag(Seq<char>),
    Class(Seq<char>),
    Id(Seq<char>),
    Attribute(Seq<char>, Option<AttrOp>, Option<Seq<char>>),
    Pseudo(PseudoClass),
    Not(Seq<SimpleView>),
}

/// The view of a simple selector.
pub open spec fn simple_view(s: SimpleSelector) -> SimpleView
    decreases s, 0int,
{
    match s {
        SimpleSelector::Universal => SimpleView::Universal,
        SimpleSelector::Tag(t) => SimpleView::Tag(t@),
        SimpleSelector::Class(c) => SimpleView::Class(c@),
        SimpleSelector::Id(i) => SimpleView::Id(i@),
        SimpleSelector::Attribute(a) => SimpleView::Attribute(a.name@, a.op, match a.value {
            Some(v) => Some(v@),
            None => None,
        }),
        SimpleSelector::PseudoClass(pc) => SimpleView::Pseudo(pc),
        SimpleSelector::Not(c) => SimpleView::Not(simples_view(c.parts@)),
    }
}

/// The views of simple selectors.
pub open spec fn simples_view(ps: Seq<SimpleSelector>) -> Seq<SimpleView>
    decreases ps, 1int,
{
    if ps.len() == 0 { Seq::empty() } else { simples_view(ps.drop_last()).push(simple_view(ps.last())) }
}

/// The view of a complex selector: its parts, key first.
pub open spec fn complex_view(c: ComplexSelector) -> Seq<(Combinator, Seq<SimpleView>)> {
    Seq::new(c.parts@.len(), |i: int| (c.parts@[i].0, simples_view(c.parts@[i].1.parts@)))
}

/// The view of a selector list.
pub open spec fn list_view(l: SelectorList) -> Seq<Seq<(Combinator, Seq<SimpleView>)>> {
    Seq::new(l.selectors@.len(), |i: int| complex_view(l.selectors@[i]))
}

/// An identifier starting at `p`, and the position after it.
pub open spec fn sel_ident(s: Seq<char>, p: int) -> Option<(Seq<char>, int)> {
    let e = ident_end(s, p);
    if e == p { None } else { Some((s.subrange(p, e), e)) }
}

/// An attribute-selector value after optional white space from `p`: quoted by
/// `"` or `'` (closed), or an identifier; and the position after it.
pub open spec fn sel_attr_value(s: Seq<char>, p: int) -> Option<(Seq<char>, int)> {
    let w = space_end(s, p);
    if 0 <= w < s.len() && (s[w] == '"' || s[w] == '\'') {
        let k = char_from(s, w + 1, s[w]);
        if k >= s.len() { None } else { Some((s.subrange(w + 1, k), k + 1)) }
    } else {
        sel_ident(s, w)
    }
}

/// The operator written as `c=`.
pub open spec fn attr_op_of(c: char) -> AttrOp {
    if c == '^' { AttrOp::StartsWith } else if c == '$' { AttrOp::EndsWith } else { AttrOp::Contains }
}

/// The operator, value and position after them, of an attribute selector whose
/// name ends at `e`.
pub open spec fn sel_attr_op(s: Seq<char>, e: int) -> Option<(Option<AttrOp>, Option<Seq<char>>, int)> {
    let w = space_end(s, e);
    if w < 0 || w >= s.len() {
        None
    } else if s[w] == ']' {
        Some((None, None, w))
    } else if s[w] == '=' {
        match sel_attr_value(s, w + 1) {
            Some((v, q)) => Some((Some(AttrOp::Equals), Some(v), q)),
            None => None,
        }
    } else if (s[w] == '^' || s[w] == '$' || s[w] == '*') && w + 1 < s.len() && s[w + 1] == '=' {
        match sel_attr_value(s, w + 2) {
            Some((v, q)) => Some((Some(attr_op_of(s[w])), Some(v), q)),
            None => None,
        }
    } else {
        None
    }
}

/// An attribute selector whose `[` is at `p`, and the position after its `]`.
pub open spec fn sel_attr(s: Seq<char>, p: int) -> Option<(SimpleView, int)> {
    match sel_ident(s, space_end(s, p + 1)) {
        None => None,
        Some((name, e)) => match sel_attr_op(s, e) {
            None => None,
            Some((op, v, q)) => {
                let w = space_end(s, q);
                if 0 <= w < s.len() && s[w] == ']' { Some((SimpleView::Attribute(name, op, v), w + 1)) } else { None }
            },
        },
    }
}

/// The digits starting at `p` as a number, when there are some and it fits an `i32`.
pub open spec fn sel_number(s: Seq<char>, p: int) -> Option<int> {
    let d = digits_end(s, p);
    if d == p || digits_value(s, p, d) > i32::MAX { None } else { Some(digits_value(s, p, d)) }
}

/// The `a` and `b` of an `an+b` expression after optional white space from `p`,
/// and the position after it.
pub open spec fn sel_nth(s: Seq<char>, p: int) -> (int, int, int) {
    let w = space_end(s, p);
    if w + 3 <= s.len() && s.subrange(w, w + 3) == "odd"@ {
        (2, 1, w + 3)
    } else if w + 4 <= s.len() && s.subrange(w, w + 4) == "even"@ {
        (2, 0, w + 4)
    } else {
        let neg = 0 <= w < s.len() && s[w] == '-';
        let q = if 0 <= w < s.len() && (s[w] == '-' || s[w] == '+') { w + 1 } else { w };
        let d = digits_end(s, q);
        if 0 <= d < s.len() && s[d] == 'n' {
            let a0 = match sel_number(s, q) { Some(v) => v, None => 1 };
            let a = if neg { -a0 } else { a0 };
            let w2 = space_end(s, d + 1);
            if 0 <= w2 < s.len() && (s[w2] == '+' || s[w2] == '-') {
                let w3 = space_end(s, w2 + 1);
                let b0 = match sel_number(s, w3) { Some(v) => v, None => 0 };
                (a, if s[w2] == '-' { -b0 } else { b0 }, digits_end(s, w3))
            } else {
                (a, 0, w2)
            }
        } else {
            let b0 = match sel_number(s, q) { Some(v) => v, None => 0 };
            (0, if neg { -b0 } else { b0 }, d)
        }
    }
}

/// `x` in front of the parts of `r` (no parse stays no parse).
pub open spec fn cons_simple(x: SimpleView, r: Option<(Seq<SimpleView>, int)>) -> Option<(Seq<SimpleView>, int)> {
    match r {
        Some((ps, q)) => Some((seq![x] + ps, q)),
        None => None,
    }
}

/// A pseudo-class whose `:` is at `p`, and the position after it.
pub open spec fn sel_pseudo(s: Seq<char>, p: int) -> Option<(SimpleView, int)>
    decreases s.len() - p, 0int,
{
    if p < 0 || p >= s.len() {
        None
    } else {
        proof { lemma_ident_end(s, p + 1); }
        match sel_ident(s, p + 1) {
            None => None,
            Some((name, e)) => if name == "first-child"@ {
                Some((SimpleView::Pseudo(PseudoClass::FirstChild), e))
            } else if name == "last-child"@ {
                Some((SimpleView::Pseudo(PseudoClass::LastChild), e))
            } else if name == "nth-child"@ {
                if e < s.len() && s[e] == '(' {
                    let t = sel_nth(s, e + 1);
                    let w = space_end(s, t.2);
                    if 0 <= w < s.len() && s[w] == ')' {
                        Some((SimpleView::Pseudo(PseudoClass::NthChild(t.0 as i32, t.1 as i32)), w + 1))
                    } else {
                        None
                    }
                } else {
                    None
                }
            } else if name == "not"@ {
                if e < s.len() && s[e] == '(' {
                    proof { lemma_space_end(s, e + 1); }
                    match sel_compound(s, space_end(s, e + 1)) {
                        None => None,
                        Some((c, q)) => {
                            let w = space_end(s, q);
                            if 0 <= w < s.len() && s[w] == ')' { Some((SimpleView::Not(c), w + 1)) } else { None }
                        },
                    }
                } else {
                    None
                }
            } else {
                None
            },
        }
    }
}

/// The simple selectors that follow one another from `p`, and the position after
/// them; `None` when one of them is malformed. (Each part ends after its start;
/// the check on that bounds the recursion.)
pub open spec fn sel_parts(s: Seq<char>, p: int) -> Option<(Seq<SimpleView>, int)>
    decreases s.len() - p, 1int,
{
    if p < 0 || p >= s.len() {
        Some((Seq::empty(), p))
    } else {
        let c = s[p];
        proof {
            lemma_ident_end(s, p);
            lemma_ident_end(s, p + 1);
        }
        if c == '*' {
            cons_simple(SimpleView::Universal, sel_parts(s, p + 1))
        } else if c == '.' || c == '#' {
            match sel_ident(s, p + 1) {
                None => None,
                Some((n, e)) => cons_simple(if c == '.' { SimpleView::Class(n) } else { SimpleView::Id(n) }, sel_parts(s, e)),
            }
        } else if c == '[' {
            match sel_attr(s, p) {
                None => None,
                Some((a, q)) => if p < q <= s.len() { cons_simple(a, sel_parts(s, q)) } else { None },
            }
        } else if c == ':' {
            match sel_pseudo(s, p) {
                None => None,
                Some((x, q)) => if p < q <= s.len() { cons_simple(x, sel_parts(s, q)) } else { None },
            }
        } else if alphabetic(c) || c == '-' || c == '_' {
            match sel_ident(s, p) {
                None => None,
                Some((n, e)) => cons_simple(SimpleView::Tag(n), sel_parts(s, e)),
            }
        } else {
            Some((Seq::empty(), p))
        }
    }
}

/// A compound selector (at least one part) from `p`, and the position after it.
pub open spec fn sel_compound(s: Seq<char>, p: int) -> Option<(Seq<SimpleView>, int)>
    decreases s.len() - p, 2int,
{
    match sel_parts(s, p) {
        Some((ps, q)) => if ps.len() > 0 { Some((ps, q)) } else { None },
        None => None,
    }
}

/// `x` in front of the pairs of `r` (no parse stays no parse).
pub open spec fn cons_pair(x: (Combinator, Seq<SimpleView>), r: Option<(Seq<(Combinator, Seq<SimpleView>)>, int)>) -> Option<(Seq<(Combinator, Seq<SimpleView>)>, int)> {
    match r {
        Some((ps, q)) => Some((seq![x] + ps, q)),
        None => None,
    }
}

/// The combinator and compound pairs that follow a compound ending at `p`, left to
/// right, and the position where the complex selector ends.
pub open spec fn sel_chain(s: Seq<char>, p: int) -> Option<(Seq<(Combinator, Seq<SimpleView>)>, int)>
    decreases s.len() - p,
{
    let w = space_end(s, p);
    if w < 0 || w >= s.len() {
        Some((Seq::empty(), w))
    } else {
        let c = s[w];
        let step: Option<(Combinator, int)> = if c == '>' {
            Some((Combinator::Child, space_end(s, w + 1)))
        } else if c == '+' {
            Some((Combinator::AdjacentSibling, space_end(s, w + 1)))
        } else if c == '~' {
            Some((Combinator::GeneralSibling, space_end(s, w + 1)))
        } else if w > p && c != ',' && c != ')' {
            Some((Combinator::Descendant, w))
        } else {
            None
        };
        match step {
            None => Some((Seq::empty(), w)),
            Some((comb, start)) => match sel_compound(s, start) {
                None => None,
                Some((cp, e)) => if p < e <= s.len() { cons_pair((comb, cp), sel_chain(s, e)) } else { None },
            },
        }
    }
}

/// The parts of a complex selector whose compounds are `sels` (left to right)
/// joined by `combs`: key first, each with the combinator to its left neighbour.
pub open spec fn rev_parts(sels: Seq<Seq<SimpleView>>, combs: Seq<Combinator>) -> Seq<(Combinator, Seq<SimpleView>)> {
    Seq::new(sels.len(), |k: int| (
        if k == 0 { Combinator::Key } else { combs[sels.len() - 1 - k] },
        sels[sels.len() - 1 - k],
    ))
}

/// A complex selector from `p`, and the position after it.
pub open spec fn sel_complex(s: Seq<char>, p: int) -> Option<(Seq<(Combinator, Seq<SimpleView>)>, int)> {
    match sel_compound(s, p) {
        None => None,
        Some((c0, e0)) => match sel_chain(s, e0) {
            None => None,
            Some((rest, e)) => Some((
                rev_parts(seq![c0] + rest.map_values(|x: (Combinator, Seq<SimpleView>)| x.1),
                    rest.map_values(|x: (Combinator, Seq<SimpleView>)| x.0)),
                e,
            )),
        },
    }
}

/// The complex selectors that follow `,` from `p` on.
pub open spec fn sel_list_rest(s: Seq<char>, p: int) -> Option<Seq<Seq<(Combinator, Seq<SimpleView>)>>>
    decreases s.len() - p,
{
    let w = space_end(s, p);
    if 0 <= w < s.len() && s[w] == ',' {
        match sel_complex(s, space_end(s, w + 1)) {
            None => None,
            Some((c, e)) => if p < e <= s.len() {
                match sel_list_rest(s, e) {
                    None => None,
                    Some(r) => Some(seq![c] + r),
                }
            } else {
                None
            },
        }
    } else {
        Some(Seq::empty())
    }
}

/// The selector list a string holds: complex selectors separated by commas (what
/// follows the last one is not read); `None` when it holds none.
pub open spec fn sel_list(s: Seq<char>) -> Option<Seq<Seq<(Combinator, Seq<SimpleView>)>>> {
    match sel_complex(s, 0) {
        None => None,
        Some((c, e)) => match sel_list_rest(s, e) {
            None => None,
            Some(r) => Some(seq![c] + r),
        },
    }
}

/// Parses a CSS selector string into a `SelectorList`; `None` when the text is not
/// a selector (an empty compound, an unknown pseudo-class, an unclosed bracket...).
pub fn parse_selector(input: &str) -> (r: Option<SelectorList>)
    ensures
        r matches Some(l) ==> selector_list_ok(l),
        input@.len() == 0 ==> r is None,
        match sel_list(input@) {
            Some(v) => r matches Some(l) && list_view(l) == v,
            None => r is None,
        },
{
    let mut parser = SelectorParser { cs: chars_of(input), pos: 0 };
    parser.parse_selector_list()
}

/// The parts of `pre` in front of those of `r` (no parse stays no parse).
pub open spec fn cat_simples(pre: Seq<SimpleView>, r: Option<(Seq<SimpleView>, int)>) -> Option<(Seq<SimpleView>, int)> {
    match r {
        Some((ps, q)) => Some((pre + ps, q)),
        None => None,
    }
}

/// The pairs of `pre` in front of those of `r` (no parse stays no parse).
pub open spec fn cat_pairs(pre: Seq<(Combinator, Seq<SimpleView>)>, r: Option<(Seq<(Combinator, Seq<SimpleView>)>, int)>) -> Option<(Seq<(Combinator, Seq<SimpleView>)>, int)> {
    match r {
        Some((ps, q)) => Some((pre + ps, q)),
        None => None,
    }
}

/// The complex selectors of `pre` in front of those of `r` (no parse stays no parse).
pub open spec fn cat_lists(pre: Seq<Seq<(Combinator, Seq<SimpleView>)>>, r: Option<Seq<Seq<(Combinator, Seq<SimpleView>)>>>) -> Option<Seq<Seq<(Combinator, Seq<SimpleView>)>>> {
    match r {
        Some(x) => Some(pre + x),
        None => None,
    }
}

pub proof fn lemma_simples_view_len(ps: Seq<SimpleSelector>)
    ensures
        simples_view(ps).len() == ps.len(),
    decreases ps.len(),
{
    if ps.len() > 0 {
        lemma_simples_view_len(ps.drop_last());
    }
}

proof fn lemma_simples_push(v: Seq<SimpleSelector>, x: SimpleSelector, r: Option<(Seq<SimpleView>, int)>)
    ensures
        simples_view(v.push(x)) == simples_view(v).push(simple_view(x)),
        cat_simples(simples_view(v.push(x)), r) == cat_simples(simples_view(v), cons_simple(simple_view(x), r)),
{
    assert(v.push(x).drop_last() =~= v);
    if let Some((ps, q)) = r {
        assert(simples_view(v).push(simple_view(x)) + ps =~= simples_view(v) + (seq![simple_view(x)] + ps));
    }
}

proof fn lemma_pairs_push(pre: Seq<(Combinator, Seq<SimpleView>)>, x: (Combinator, Seq<SimpleView>), r: Option<(Seq<(Combinator, Seq<SimpleView>)>, int)>)
    ensures
        cat_pairs(pre.push(x), r) == cat_pairs(pre, cons_pair(x, r)),
{
    if let Some((ps, q)) = r {
        assert(pre.push(x) + ps =~= pre + (seq![x] + ps));
    }
}

/// A cursor over the characters of a selector.
struct SelectorParser {
    cs: Vec<char>,
    pos: usize,
}

impl SelectorParser {
    spec fn ok(&self) -> bool {
        self.pos <= self.cs@.len()
    }

    spec fn rest(&self) -> int {
        self.cs@.len() - self.pos
    }

    fn peek(&self) -> (r: Option<char>)
        requires
            self.ok(),
        ensures
            r == (if self.pos < self.cs@.len() { Some(self.cs@[self.pos as int]) } else { None }),
    {
        if self.pos < self.cs.len() { Some(self.cs[self.pos]) } else { None }
    }

    fn peek_is(&self, c: char) -> (r: bool)
        requires
            self.ok(),
        ensures
            r == (self.pos < self.cs@.len() && self.cs@[self.pos as int] == c),
    {
        self.pos < self.cs.len() && self.cs[self.pos] == c
    }

    fn advance(&mut self) -> (r: Option<char>)
        requires
            old(self).ok(),
        ensures
            final(self).ok(),
            final(self).cs == old(self).cs,
            old(self).pos < old(self).cs@.len() ==> final(self).pos == old(self).pos + 1 && r == Some(old(self).cs@[old(self).pos as int]),
            old(self).pos >= old(self).cs@.len() ==> final(self).pos == old(self).pos && r is None,
    {
        if self.pos < self.cs.len() {
            let c = self.cs[self.pos];
            self.pos += 1;
            Some(c)
        } else {
            None
        }
    }

    fn skip_whitespace(&mut self)
        requires
            old(self).ok(),
        ensures
            final(self).ok(),
            final(self).cs == old(self).cs,
            final(self).pos == space_end(old(self).cs@, old(self).pos as int),
            final(self).pos >= old(self).pos,
    {
        proof { lemma_space_end(self.cs@, self.pos as int); }
        let ghost start = self.pos as int;
        while self.pos < self.cs.len()
            invariant
                self.ok(),
                self.cs == old(self).cs,
                start <= self.pos,
                space_end(self.cs@, start) == space_end(self.cs@, self.pos as int),
            ensures
                self.ok(),
                self.cs == old(self).cs,
                start <= self.pos,
                self.pos == space_end(self.cs@, start),
            decreases self.cs@.len() - self.pos,
        {
            let c = self.cs[self.pos];
            if c == ' ' || c == '\t' || c == '\n' || c == '\r' {
                self.pos += 1;
            } else {
                break;
            }
        }
    }

    fn skip_whitespace_check(&mut self) -> (r: bool)
        requires
            old(self).ok(),
        ensures
            final(self).ok(),
            final(self).cs == old(self).cs,
            final(self).pos == space_end(old(self).cs@, old(self).pos as int),
            final(self).pos >= old(self).pos,
            r == (final(self).pos > old(self).pos),
    {
        let start = self.pos;
        self.skip_whitespace();
        self.pos > start
    }

    fn parse_ident(&mut self) -> (r: Option<String>)
        requires
            old(self).ok(),
        ensures
            final(self).ok(),
            final(self).cs == old(self).cs,
            final(self).pos == ident_end(old(self).cs@, old(self).pos as int),
            final(self).pos >= old(self).pos,
            r is None <==> final(self).pos == old(self).pos,
            r matches Some(s) ==> s@ == old(self).cs@.subrange(old(self).pos as int, final(self).pos as int),
    {
        proof { lemma_ident_end(self.cs@, self.pos as int); }
        let start = self.pos;
        while self.pos < self.cs.len()
            invariant
                self.ok(),
                self.cs == old(self).cs,
                start == old(self).pos,
                start <= self.pos,
                ident_end(self.cs@, start as int) == ident_end(self.cs@, self.pos as int),
            ensures
                self.ok(),
                self.cs == old(self).cs,
                start <= self.pos,
                self.pos == ident_end(self.cs@, start as int),
            decreases self.cs@.len() - self.pos,
        {
            let c = self.cs[self.pos];
            if is_alphanumeric(c) || c == '-' || c == '_' {
                self.pos += 1;
            } else {
                break;
            }
        }
        if self.pos == start {
            return None;
        }
        Some(string_of(&self.cs, start, self.pos))
    }

    #[verifier::rlimit(50)]
    fn parse_selector_list(&mut self) -> (r: Option<SelectorList>)
        requires
            old(self).ok(),
        ensures
            final(self).ok(),
            r matches Some(l) ==> selector_list_ok(l),
            old(self).cs@.len() == 0 ==> r is None,
            old(self).pos == 0 ==> match sel_list(old(self).cs@) {
                Some(v) => r matches Some(l) && list_view(l) == v,
                None => r is None,
            },
    {
        let ghost s0 = self.cs@;
        let ghost p0 = self.pos as int;
        let mut selectors: Vec<ComplexSelector> = Vec::new();
        let first = self.parse_complex_selector()?;
        selectors.push(first);
        let ghost e0 = self.pos as int;
        let ghost mut acc: Seq<Seq<(Combinator, Seq<SimpleView>)>> = Seq::empty();
        proof {
            assert(Seq::<Seq<(Combinator, Seq<SimpleView>)>>::empty() + Seq::<Seq<(Combinator, Seq<SimpleView>)>>::empty()
                =~= Seq::<Seq<(Combinator, Seq<SimpleView>)>>::empty());
        }
        loop
            invariant_except_break
                sel_list_rest(s0, e0) == cat_lists(acc, sel_list_rest(s0, self.pos as int)),
            invariant
                self.ok(),
                self.cs@ == s0,
                s0 == old(self).cs@,
                p0 == old(self).pos,
                selectors@.len() > 0,
                forall|i: int| 0 <= i < selectors@.len() ==> complex_ok(#[trigger] selectors@[i]),
                p0 == 0 ==> (sel_complex(s0, 0) matches Some((c, e)) && e == e0 && c == complex_view(first)),
                selectors@[0] == first,
                acc.len() == selectors@.len() - 1,
                forall|i: int| 0 <= i < acc.len() ==> #[trigger] acc[i] == complex_view(selectors@[i + 1]),
            ensures
                sel_list_rest(s0, e0) == Some(acc),
            decreases self.rest(),
        {
            let ghost q0 = self.pos as int;
            self.skip_whitespace();
            if self.peek_is(',') {
                self.advance();
                self.skip_whitespace();
                let next = match self.parse_complex_selector() {
                    Some(n) => n,
                    None => {
                        proof {
                            assert(sel_list_rest(s0, q0) is None);
                            assert(sel_list_rest(s0, e0) is None);
                            if p0 == 0 {
                                let (c, e) = sel_complex(s0, 0)->0;
                                assert(e == e0);
                                assert(sel_list(s0) is None);
                            }
                        }
                        return None;
                    },
                };
                proof {
                    if let Some(r) = sel_list_rest(s0, self.pos as int) {
                        assert(acc.push(complex_view(next)) + r =~= acc + (seq![complex_view(next)] + r));
                    }
                    acc = acc.push(complex_view(next));
                }
                selectors.push(next);
            } else {
                proof { assert(acc + Seq::<Seq<(Combinator, Seq<SimpleView>)>>::empty() =~= acc); }
                break;
            }
        }
        proof {
            if p0 == 0 {
                let v = list_view(SelectorList { selectors });
                assert(v =~= seq![complex_view(first)] + acc);
            }
        }
        Some(SelectorList { selectors })
    }

    fn parse_complex_selector(&mut self) -> (r: Option<ComplexSelector>)
        requires
            old(self).ok(),
        ensures
            final(self).ok(),
            final(self).cs == old(self).cs,
            final(self).pos >= old(self).pos,
            r matches Some(c) ==> complex_ok(c) && final(self).pos > old(self).pos,
            match sel_complex(old(self).cs@, old(self).pos as int) {
                Some((v, q)) => r matches Some(c) && complex_view(c) == v && final(self).pos == q,
                None => r is None,
            },
    {
        let mut selectors: Vec<CompoundSelector> = Vec::new();
        let mut combinators: Vec<Combinator> = Vec::new();
        let first = self.parse_compound_selector()?;
        selectors.push(first);
        let ghost start = old(self).pos;
        let ghost e0 = self.pos as int;
        let ghost c0 = simples_view(first.parts@);
        let ghost mut pairs: Seq<(Combinator, Seq<SimpleView>)> = Seq::empty();
        proof { assert(Seq::<(Combinator, Seq<SimpleView>)>::empty() + Seq::<(Combinator, Seq<SimpleView>)>::empty() =~= Seq::<(Combinator, Seq<SimpleView>)>::empty()); }
        loop
            invariant
                self.ok(),
                self.cs == old(self).cs,
                self.pos > start,
                start == old(self).pos,
                selectors@.len() == combinators@.len() + 1,
                forall|i: int| 0 <= i < selectors@.len() ==> compound_ok(#[trigger] selectors@[i]),
                forall|i: int| 0 <= i < combinators@.len() ==> #[trigger] combinators@[i] != Combinator::Key,
                sel_compound(self.cs@, start as int) == Some((c0, e0)),
                pairs.len() == combinators@.len(),
                simples_view(selectors@[0].parts@) == c0,
                forall|i: int| 0 <= i < pairs.len() ==> (#[trigger] pairs[i]).0 == combinators@[i]
                    && pairs[i].1 == simples_view(selectors@[i + 1].parts@),
                sel_chain(self.cs@, e0) == cat_pairs(pairs, sel_chain(self.cs@, self.pos as int)),
            ensures
                self.ok(),
                self.cs == old(self).cs,
                self.pos > start,
                selectors@.len() == combinators@.len() + 1,
                forall|i: int| 0 <= i < selectors@.len() ==> compound_ok(#[trigger] selectors@[i]),
                forall|i: int| 0 <= i < combinators@.len() ==> #[trigger] combinators@[i] != Combinator::Key,
                sel_compound(self.cs@, start as int) == Some((c0, e0)),
                pairs.len() == combinators@.len(),
                simples_view(selectors@[0].parts@) == c0,
                forall|i: int| 0 <= i < pairs.len() ==> (#[trigger] pairs[i]).0 == combinators@[i]
                    && pairs[i].1 == simples_view(selectors@[i + 1].parts@),
                sel_chain(self.cs@, e0) == Some((pairs, self.pos as int)),
            decreases self.rest(),
        {
            let ghost p1 = self.pos as int;
            proof { lemma_space_end(self.cs@, self.pos as int); }
            let had_whitespace = self.skip_whitespace_check();
            let c = self.peek();
            let comb = match c {
                Some('>') => {
                    self.advance();
                    Combinator::Child
                },
                Some('+') => {
                    self.advance();
                    Combinator::AdjacentSibling
                },
                Some('~') => {
                    self.advance();
                    Combinator::GeneralSibling
                },
                Some(ch) => {
                    if had_whitespace && ch != ',' && ch != ')' {
                        Combinator::Descendant
                    } else {
                        proof { assert(pairs + Seq::<(Combinator, Seq<SimpleView>)>::empty() =~= pairs); }
                        break;
                    }
                },
                None => {
                    proof { assert(pairs + Seq::<(Combinator, Seq<SimpleView>)>::empty() =~= pairs); }
                    break;
                },
            };
            if comb != Combinator::Descendant {
                self.skip_whitespace();
            }
            let next = self.parse_compound_selector()?;
            proof {
                lemma_pairs_push(pairs, (comb, simples_view(next.parts@)), sel_chain(self.cs@, self.pos as int));
                pairs = pairs.push((comb, simples_view(next.parts@)));
            }
            combinators.push(comb);
            selectors.push(next);
        }
        let ghost orig = selectors@;
        let ghost sv = seq![c0] + pairs.map_values(|x: (Combinator, Seq<SimpleView>)| x.1);
        let ghost cv = pairs.map_values(|x: (Combinator, Seq<SimpleView>)| x.0);
        proof {
            assert forall|k: int| 0 <= k < orig.len() implies sv[k] == simples_view((#[trigger] orig[k]).parts@) by {
                if k > 0 {
                    assert(pairs[k - 1].1 == simples_view(orig[k].parts@));
                }
            }
            assert(cv =~= combinators@);
        }
        let len = selectors.len();
        let mut parts: Vec<(Combinator, CompoundSelector)> = Vec::new();
        let mut i = len;
        while i > 0
            invariant
                i <= len,
                i == selectors@.len(),
                len == combinators@.len() + 1,
                len == orig.len(),
                selectors@ == orig.subrange(0, i as int),
                sv.len() == len,
                cv == combinators@,
                forall|k: int| 0 <= k < orig.len() ==> sv[k] == simples_view((#[trigger] orig[k]).parts@),
                forall|k: int| 0 <= k < selectors@.len() ==> compound_ok(#[trigger] selectors@[k]),
                forall|k: int| 0 <= k < combinators@.len() ==> #[trigger] combinators@[k] != Combinator::Key,
                parts@.len() == len - i,
                len > 0,
                parts@.len() > 0 ==> parts@[0].0 == Combinator::Key,
                forall|k: int| 1 <= k < parts@.len() ==> (#[trigger] parts@[k]).0 != Combinator::Key,
                forall|k: int| 0 <= k < parts@.len() ==> compound_ok(#[trigger] parts@[k].1),
                forall|k: int| 0 <= k < parts@.len() ==> (#[trigger] parts@[k]).0 == rev_parts(sv, cv)[k].0
                    && simples_view(parts@[k].1.parts@) == rev_parts(sv, cv)[k].1,
            decreases i,
        {
            i -= 1;
            let sel = selectors.pop().unwrap();
            proof {
                assert(compound_ok(sel));
                assert(sel == orig[i as int]);
                assert(selectors@ =~= orig.subrange(0, i as int));
            }
            if i == len - 1 {
                parts.push((Combinator::Key, sel));
            } else {
                parts.push((combinators[i], sel));
            }
        }
        let r = ComplexSelector { parts };
        proof {
            assert(complex_view(r) =~= rev_parts(sv, cv));
        }
        Some(r)
    }

    fn parse_compound_selector(&mut self) -> (r: Option<CompoundSelector>)
        requires
            old(self).ok(),
        ensures
            final(self).ok(),
            final(self).cs == old(self).cs,
            final(self).pos >= old(self).pos,
            r matches Some(c) ==> compound_ok(c) && final(self).pos > old(self).pos,
            match sel_compound(old(self).cs@, old(self).pos as int) {
                Some((v, q)) => r matches Some(c) && simples_view(c.parts@) == v && final(self).pos == q,
                None => r is None,
            },
        decreases old(self).rest(), 1int,
    {
        let mut parts: Vec<SimpleSelector> = Vec::new();
        let ghost start = self.pos;
        proof { assert(Seq::<SimpleView>::empty() + Seq::<SimpleView>::empty() =~= Seq::<SimpleView>::empty()); }
        loop
            invariant
                self.ok(),
                self.cs == old(self).cs,
                start == old(self).pos,
                self.pos >= start,
                parts@.len() > 0 ==> self.pos > start,
                sel_parts(self.cs@, start as int) == cat_simples(simples_view(parts@), sel_parts(self.cs@, self.pos as int)),
            ensures
                self.ok(),
                self.cs == old(self).cs,
                self.pos >= start,
                parts@.len() > 0 ==> self.pos > start,
                sel_parts(self.cs@, start as int) == Some((simples_view(parts@), self.pos as int)),
            decreases self.rest(),
        {
            let c = self.peek();
            let ghost p0 = self.pos as int;
            proof {
                lemma_ident_end(self.cs@, self.pos as int);
                if self.pos < self.cs@.len() {
                    lemma_ident_end(self.cs@, self.pos + 1);
                }
            }
            match c {
                Some('*') => {
                    self.advance();
                    proof { lemma_simples_push(parts@, SimpleSelector::Universal, sel_parts(self.cs@, self.pos as int)); }
                    parts.push(SimpleSelector::Universal);
                },
                Some('.') => {
                    self.advance();
                    let ident = self.parse_ident()?;
                    let x = SimpleSelector::Class(ident);
                    proof { lemma_simples_push(parts@, x, sel_parts(self.cs@, self.pos as int)); }
                    parts.push(x);
                },
                Some('#') => {
                    self.advance();
                    let ident = self.parse_ident()?;
                    let x = SimpleSelector::Id(ident);
                    proof { lemma_simples_push(parts@, x, sel_parts(self.cs@, self.pos as int)); }
                    parts.push(x);
                },
                Some('[') => {
                    let a = self.parse_attr_selector()?;
                    proof { lemma_simples_push(parts@, a, sel_parts(self.cs@, self.pos as int)); }
                    parts.push(a);
                },
                Some(':') => {
                    let p = self.parse_pseudo_class()?;
                    proof { lemma_simples_push(parts@, p, sel_parts(self.cs@, self.pos as int)); }
                    parts.push(p);
                },
                Some(ch) => {
                    if is_alphabetic(ch) || ch == '-' || ch == '_' {
                        let ident = self.parse_ident()?;
                        let x = SimpleSelector::Tag(ident);
                        proof { lemma_simples_push(parts@, x, sel_parts(self.cs@, self.pos as int)); }
                        parts.push(x);
                    } else {
                        proof { assert(simples_view(parts@) + Seq::<SimpleView>::empty() =~= simples_view(parts@)); }
                        break;
                    }
                },
                None => {
                    proof { assert(simples_view(parts@) + Seq::<SimpleView>::empty() =~= simples_view(parts@)); }
                    break;
                },
            }
        }
        if parts.len() == 0 {
            return None;
        }
        Some(CompoundSelector { parts })
    }

    fn parse_attr_selector(&mut self) -> (r: Option<SimpleSelector>)
        requires
            old(self).ok(),
            old(self).pos < old(self).cs@.len(),
        ensures
            final(self).ok(),
            final(self).cs == old(self).cs,
            final(self).pos > old(self).pos,
            match sel_attr(old(self).cs@, old(self).pos as int) {
                Some((v, q)) => r matches Some(x) && simple_view(x) == v && final(self).pos == q,
                None => r is None,
            },
    {
        self.advance();
        self.skip_whitespace();
        let name = self.parse_ident()?;
        self.skip_whitespace();
        let c = self.peek();
        let (op, value) = match c {
            Some(']') => (None, None),
            Some('=') => {
                self.advance();
                let val = self.parse_attr_value()?;
                (Some(AttrOp::Equals), Some(val))
            },
            Some('^') => {
                self.advance();
                if !self.peek_is('=') {
                    return None;
                }
                self.advance();
                let val = self.parse_attr_value()?;
                (Some(AttrOp::StartsWith), Some(val))
            },
            Some('$') => {
                self.advance();
                if !self.peek_is('=') {
                    return None;
                }
                self.advance();
                let val = self.parse_attr_value()?;
                (Some(AttrOp::EndsWith), Some(val))
            },
            Some('*') => {
                self.advance();
                if !self.peek_is('=') {
                    return None;
                }
                self.advance();
                let val = self.parse_attr_value()?;
                (Some(AttrOp::Contains), Some(val))
            },
            _ => {
                return None;
            },
        };
        self.skip_whitespace();
        if !self.peek_is(']') {
            return None;
        }
        self.advance();
        Some(SimpleSelector::Attribute(AttrSelector { name, op, value }))
    }

    fn parse_attr_value(&mut self) -> (r: Option<String>)
        requires
            old(self).ok(),
        ensures
            final(self).ok(),
            final(self).cs == old(self).cs,
            final(self).pos >= old(self).pos,
            match sel_attr_value(old(self).cs@, old(self).pos as int) {
                Some((v, q)) => r matches Some(x) && x@ == v && final(self).pos == q,
                None => r is None,
            },
    {
        self.skip_whitespace();
        let c = self.peek();
        match c {
            Some(q) => {
                if q == '"' || q == '\'' {
                    let ghost w = self.pos as int;
                    self.advance();
                    let start = self.pos;
                    while !self.peek_is(q)
                        invariant
                            self.ok(),
                            self.cs == old(self).cs,
                            start <= self.pos,
                            start >= old(self).pos,
                            start == w + 1,
                            w == space_end(self.cs@, old(self).pos as int),
                            0 <= w < self.cs@.len(),
                            q == self.cs@[w],
                            q == '"' || q == '\'',
                            char_from(self.cs@, self.pos as int, q) == char_from(self.cs@, start as int, q),
                        decreases self.rest(),
                    {
                        if self.pos >= self.cs.len() {
                            return None;
                        }
                        self.advance();
                    }
                    let val = string_of(&self.cs, start, self.pos);
                    self.advance();
                    Some(val)
                } else {
                    self.parse_ident()
                }
            },
            None => self.parse_ident(),
        }
    }

    fn name_is(s: &String, lit: &str) -> (r: bool)
        ensures
            r == (s@ == lit@),
    {
        crate::text::str_eq(s.as_str(), lit)
    }

    fn parse_pseudo_class(&mut self) -> (r: Option<SimpleSelector>)
        requires
            old(self).ok(),
            old(self).pos < old(self).cs@.len(),
        ensures
            final(self).ok(),
            final(self).cs == old(self).cs,
            final(self).pos > old(self).pos,
            match sel_pseudo(old(self).cs@, old(self).pos as int) {
                Some((v, q)) => r matches Some(x) && simple_view(x) == v && final(self).pos == q,
                None => r is None,
            },
        decreases old(self).rest(), 0int,
    {
        self.advance();
        proof { lemma_ident_end(self.cs@, self.pos as int); }
        let name = self.parse_ident()?;
        if Self::name_is(&name, "first-child") {
            Some(SimpleSelector::PseudoClass(PseudoClass::FirstChild))
        } else if Self::name_is(&name, "last-child") {
            Some(SimpleSelector::PseudoClass(PseudoClass::LastChild))
        } else if Self::name_is(&name, "nth-child") {
            if !self.peek_is('(') {
                return None;
            }
            self.advance();
            proof {
                lemma_space_end(self.cs@, self.pos as int);
                let w = space_end(self.cs@, self.pos as int);
                assert(space_end(self.cs@, w) == w);
            }
            self.skip_whitespace();
            let (a, b) = self.parse_nth_expr()?;
            self.skip_whitespace();
            if !self.peek_is(')') {
                return None;
            }
            self.advance();
            Some(SimpleSelector::PseudoClass(PseudoClass::NthChild(a, b)))
        } else if Self::name_is(&name, "not") {
            if !self.peek_is('(') {
                return None;
            }
            self.advance();
            self.skip_whitespace();
            let inner = self.parse_compound_selector()?;
            self.skip_whitespace();
            if !self.peek_is(')') {
                return None;
            }
            self.advance();
            Some(SimpleSelector::Not(inner))
        } else {
            None
        }
    }

    fn starts_with_word(&self, w: &str) -> (r: bool)
        requires
            self.ok(),
        ensures
            r == (self.pos + w@.len() <= self.cs@.len()
                && self.cs@.subrange(self.pos as int, self.pos + w@.len()) == w@),
    {
        let wc = chars_of(w);
        let n = self.cs.len();
        if n - self.pos < wc.len() {
            return false;
        }
        let mut i: usize = 0;
        while i < wc.len()
            invariant
                self.ok(),
                n == self.cs@.len(),
                wc@ == w@,
                self.pos + wc@.len() <= self.cs@.len(),
                i <= wc@.len(),
                forall|k: int| 0 <= k < i ==> self.cs@[self.pos + k] == wc@[k],
            decreases wc@.len() - i,
        {
            if self.cs[self.pos + i] != wc[i] {
                proof {
                    assert(self.cs@.subrange(self.pos as int, self.pos + w@.len())[i as int] != w@[i as int]);
                }
                return false;
            }
            i += 1;
        }
        proof {
            assert(self.cs@.subrange(self.pos as int, self.pos + w@.len()) =~= w@);
        }
        true
    }

    fn parse_nth_expr(&mut self) -> (r: Option<(i32, i32)>)
        requires
            old(self).ok(),
        ensures
            final(self).ok(),
            final(self).cs == old(self).cs,
            final(self).pos >= old(self).pos,
            r == Some((sel_nth(old(self).cs@, old(self).pos as int).0 as i32, sel_nth(old(self).cs@, old(self).pos as int).1 as i32)),
            final(self).pos == sel_nth(old(self).cs@, old(self).pos as int).2,
    {
        self.skip_whitespace();
        let n = self.cs.len();
        proof {
            reveal_strlit("odd");
            reveal_strlit("even");
        }
        if self.starts_with_word("odd") {
            self.pos += 3;
            return Some((2, 1));
        }
        if self.starts_with_word("even") {
            self.pos += 4;
            return Some((2, 0));
        }
        let mut a: i32 = 0;
        let mut b: i32 = 0;
        let neg = self.peek_is('-');
        if neg || self.peek_is('+') {
            self.advance();
        }
        let num = self.parse_number();
        if self.peek_is('n') {
            self.advance();
            a = match num {
                Some(v) => v,
                None => 1,
            };
            if neg {
                a = -a;
            }
            self.skip_whitespace();
            if self.peek_is('+') || self.peek_is('-') {
                let b_neg = self.peek_is('-');
                self.advance();
                self.skip_whitespace();
                b = match self.parse_number() {
                    Some(v) => v,
                    None => 0,
                };
                if b_neg {
                    b = -b;
                }
            }
        } else {
            b = match num {
                Some(v) => v,
                None => 0,
            };
            if neg {
                b = -b;
            }
        }
        Some((a, b))
    }

    /// A run of ASCII digits as a non-negative `i32` (`None` when there is no digit
    /// or the value does not fit).
    fn parse_number(&mut self) -> (r: Option<i32>)
        requires
            old(self).ok(),
        ensures
            final(self).ok(),
            final(self).cs == old(self).cs,
            final(self).pos == digits_end(old(self).cs@, old(self).pos as int),
            final(self).pos >= old(self).pos,
            r matches Some(v) ==> v >= 0 && v == digits_value(old(self).cs@, old(self).pos as int, final(self).pos as int),
            r is None ==> final(self).pos == old(self).pos
                || digits_value(old(self).cs@, old(self).pos as int, final(self).pos as int) > i32::MAX,
            match sel_number(old(self).cs@, old(self).pos as int) {
                Some(v) => r == Some(v as i32),
                None => r is None,
            },
    {
        proof { lemma_digits_end(self.cs@, self.pos as int); }
        let start = self.pos;
        let mut val: i32 = 0;
        let mut overflow = false;
        while self.pos < self.cs.len()
            invariant
                self.ok(),
                self.cs == old(self).cs,
                start == old(self).pos,
                start <= self.pos,
                digits_end(self.cs@, start as int) == digits_end(self.cs@, self.pos as int),
                forall|k: int| start <= k < self.pos ==> '0' <= #[trigger] self.cs@[k] <= '9',
                !overflow ==> val == digits_value(self.cs@, start as int, self.pos as int) && val >= 0,
                overflow ==> digits_value(self.cs@, start as int, self.pos as int) > i32::MAX,
            ensures
                self.ok(),
                self.cs == old(self).cs,
                start <= self.pos,
                self.pos == digits_end(self.cs@, start as int),
                !overflow ==> val == digits_value(self.cs@, start as int, self.pos as int) && val >= 0,
                overflow ==> digits_value(self.cs@, start as int, self.pos as int) > i32::MAX,
            decreases self.cs@.len() - self.pos,
        {
            let c = self.cs[self.pos];
            if '0' <= c && c <= '9' {
                let d = (c as u32 - '0' as u32) as i32;
                if !overflow {
                    if val > (i32::MAX - d) / 10 {
                        overflow = true;
                        proof {
                            assert(val * 10 + d > i32::MAX) by (nonlinear_arith)
                                requires val > (i32::MAX - d) / 10, 0 <= d <= 9;
                        }
                    } else {
                        proof {
                            assert(val * 10 + d <= i32::MAX) by (nonlinear_arith)
                                requires val <= (i32::MAX - d) / 10, 0 <= d <= 9, val >= 0;
                        }
                        val = val * 10 + d;
                    }
                } else {
                    proof {
                        let v0 = digits_value(self.cs@, start as int, self.pos as int);
                        assert(v0 * 10 + d > i32::MAX) by (nonlinear_arith)
                            requires v0 > i32::MAX, 0 <= d <= 9;
                    }
                }
                self.pos += 1;
            } else {
                break;
            }
        }
        if self.pos == start || overflow {
            return None;
        }
        Some(val)
    }
}


/// `idx` (1-based) is of the form `a*n + b` for some `n >= 0`.
pub open spec fn nth_ok(idx: int, a: int, b: int) -> bool {
    if a == 0 {
        idx == b
    } else {
        let d = idx - b;
        d == 0 || ((d > 0) == (a > 0) && (if d > 0 { d } else { -d }) % (if a > 0 { a } else { -a }) == 0)
    }
}

/// The 1-based position of `id` among the children `cs` (one past the end if absent).
pub open spec fn child_position(cs: Seq<NodeId>, id: NodeId) -> int {
    if cs.contains(id) { cs.index_of(id) + 1 } else { cs.len() as int + 1 }
}

/// The attribute value `v` satisfies the operator of `a`.
pub open spec fn attr_op_holds(a: AttrSelector, v: Seq<char>) -> bool {
    match (a.op, a.value) {
        (None, _) => true,
        (Some(AttrOp::Equals), Some(w)) => v == w@,
        (Some(AttrOp::StartsWith), Some(w)) => occurs_at(v, w@, 0),
        (Some(AttrOp::EndsWith), Some(w)) => w@.len() <= v.len() && occurs_at(v, w@, v.len() - w@.len()),
        (Some(AttrOp::Contains), Some(w)) => occurs_in(v, w@),
        _ => false,
    }
}

proof fn lemma_starts(v: Seq<char>, w: Seq<char>)
    ensures
        occurs_at(v, w, 0) <==> exists|q: Seq<char>| v == w + q,
{
    if occurs_at(v, w, 0) {
        assert(v =~= w + v.subrange(w.len() as int, v.len() as int));
    }
    if exists|q: Seq<char>| v == w + q {
        let q = choose|q: Seq<char>| v == w + q;
        assert(v.subrange(0, w.len() as int) =~= w);
    }
}

proof fn lemma_ends(v: Seq<char>, w: Seq<char>)
    ensures
        (w.len() <= v.len() && occurs_at(v, w, v.len() - w.len())) <==> exists|p: Seq<char>| v == p + w,
{
    if w.len() <= v.len() && occurs_at(v, w, v.len() - w.len()) {
        assert(v =~= v.subrange(0, v.len() - w.len()) + w);
    }
    if exists|p: Seq<char>| v == p + w {
        let p = choose|p: Seq<char>| v == p + w;
        assert(v.subrange(p.len() as int, (p.len() + w.len()) as int) =~= w);
    }
}

proof fn lemma_holds_in(v: Seq<char>, w: Seq<char>)
    ensures
        occurs_in(v, w) <==> exists|p: Seq<char>, q: Seq<char>| v == p + w + q,
{
    if occurs_in(v, w) {
        let i = choose|i: int| occurs_at(v, w, i);
        assert(v =~= v.subrange(0, i) + w + v.subrange(i + w.len(), v.len() as int));
    }
    if exists|p: Seq<char>, q: Seq<char>| v == p + w + q {
        let (p, q) = choose|p: Seq<char>, q: Seq<char>| v == p + w + q;
        assert(v.subrange(p.len() as int, (p.len() + w.len()) as int) =~= w);
        assert(occurs_at(v, w, p.len() as int));
    }
}

/// What the attribute operators mean: `[a=w]` holds of the value `w` itself,
/// `[a^=w]` of a value that begins with `w`, `[a$=w]` of a value that ends with
/// `w`, `[a*=w]` of a value that holds `w` somewhere, and `[a]` of any value.
pub proof fn law_attr_ops(a: AttrSelector, v: Seq<char>)
    ensures
        a.op is None ==> attr_op_holds(a, v),
        a.op is Some && a.value is None ==> !attr_op_holds(a, v),
        a.op == Some(AttrOp::Equals) && a.value is Some ==> (attr_op_holds(a, v) <==> v == a.value->0@),
        a.op == Some(AttrOp::StartsWith) && a.value is Some
            ==> (attr_op_holds(a, v) <==> exists|q: Seq<char>| v == a.value->0@ + q),
        a.op == Some(AttrOp::EndsWith) && a.value is Some
            ==> (attr_op_holds(a, v) <==> exists|p: Seq<char>| v == p + a.value->0@),
        a.op == Some(AttrOp::Contains) && a.value is Some
            ==> (attr_op_holds(a, v) <==> exists|p: Seq<char>, q: Seq<char>| v == p + a.value->0@ + q),
{
    if a.value is Some {
        let w = a.value->0@;
        lemma_starts(v, w);
        lemma_ends(v, w);
        lemma_holds_in(v, w);
    }
}

impl Document {
    /// Node `id` matches the simple selector `s`.
    pub open spec fn simple_matches(&self, id: NodeId, s: SimpleSelector) -> bool
        decreases s,
    {
        let n = self.nodes@[id.0 as int];
        match s {
            SimpleSelector::Universal => true,
            SimpleSelector::Tag(t) => element_of(n) matches Some(el) && el.tag@ == t@,
            SimpleSelector::Class(c) => element_of(n) matches Some(el) && strs_view(el.class_list@).contains(c@),
            SimpleSelector::Id(i) => element_of(n) matches Some(el) && el.id matches Some(x) && x@ == i@,
            SimpleSelector::Attribute(a) => element_of(n) matches Some(el) && {
                let v = attrs_view(el.attributes@);
                let k = first_attr(v, a.name@);
                k >= 0 && attr_op_holds(a, v[k].1)
            },
            SimpleSelector::PseudoClass(PseudoClass::FirstChild) => n.prev_sibling is None && n.parent is Some,
            SimpleSelector::PseudoClass(PseudoClass::LastChild) => n.next_sibling is None && n.parent is Some,
            SimpleSelector::PseudoClass(PseudoClass::NthChild(a, b)) => n.parent matches Some(p)
                && nth_ok(child_position(self.kids@[p.0 as int], id), a as int, b as int),
            SimpleSelector::Not(inner) => !self.parts_match(id, inner.parts@),
        }
    }

    /// Node `id` matches every simple selector of `parts`.
    pub open spec fn parts_match(&self, id: NodeId, parts: Seq<SimpleSelector>) -> bool
        decreases parts,
    {
        if parts.len() == 0 {
            true
        } else {
            self.parts_match(id, parts.drop_last()) && self.simple_matches(id, parts.last())
        }
    }

    /// Node `id` matches the compound selector `c`.
    pub open spec fn compound_matches(&self, id: NodeId, c: CompoundSelector) -> bool {
        self.parts_match(id, c.parts@)
    }

    /// The nearest node of the parent chain starting at `start` that matches `c`
    /// (following at most `fuel` further links).
    pub open spec fn nearest_ancestor(&self, start: Option<NodeId>, c: CompoundSelector, fuel: nat) -> Option<NodeId>
        decreases fuel,
    {
        match start {
            None => None,
            Some(a) => if self.compound_matches(a, c) {
                Some(a)
            } else if fuel == 0 {
                None
            } else {
                self.nearest_ancestor(self.nodes@[a.0 as int].parent, c, (fuel - 1) as nat)
            },
        }
    }

    /// The nearest node of the previous-sibling chain starting at `start` that matches `c`.
    pub open spec fn nearest_prev(&self, start: Option<NodeId>, c: CompoundSelector, fuel: nat) -> Option<NodeId>
        decreases fuel,
    {
        match start {
            None => None,
            Some(a) => if self.compound_matches(a, c) {
                Some(a)
            } else if fuel == 0 {
                None
            } else {
                self.nearest_prev(self.nodes@[a.0 as int].prev_sibling, c, (fuel - 1) as nat)
            },
        }
    }

    /// Following `parts[i..]` leftwards from `current`, each combinator finds its
    /// node (the nearest one for descendant and general-sibling links).
    pub open spec fn walk_matches(&self, current: NodeId, parts: Seq<(Combinator, CompoundSelector)>, i: int) -> bool
        decreases parts.len() - i,
    {
        if i < 0 || i >= parts.len() {
            true
        } else {
            let n = self.nodes@[current.0 as int];
            let fuel = self.nodes@.len();
            let c = parts[i].1;
            match parts[i].0 {
                Combinator::Descendant => match self.nearest_ancestor(n.parent, c, fuel) {
                    Some(a) => self.walk_matches(a, parts, i + 1),
                    None => false,
                },
                Combinator::Child => match n.parent {
                    Some(p) => self.compound_matches(p, c) && self.walk_matches(p, parts, i + 1),
                    None => false,
                },
                Combinator::AdjacentSibling => match n.prev_sibling {
                    Some(p) => self.compound_matches(p, c) && self.walk_matches(p, parts, i + 1),
                    None => false,
                },
                Combinator::GeneralSibling => match self.nearest_prev(n.prev_sibling, c, fuel) {
                    Some(a) => self.walk_matches(a, parts, i + 1),
                    None => false,
                },
                Combinator::Key => self.walk_matches(current, parts, i + 1),
            }
        }
    }

    /// Node `id` matches the complex selector `c`.
    pub open spec fn complex_matches(&self, id: NodeId, c: ComplexSelector) -> bool {
        c.parts@.len() > 0 && self.compound_matches(id, c.parts@[0].1) && self.walk_matches(id, c.parts@, 1)
    }

    /// Node `id` matches one of the selectors of the list.
    pub open spec fn list_matches(&self, id: NodeId, l: SelectorList) -> bool {
        exists|i: int| 0 <= i < l.selectors@.len() && self.complex_matches(id, #[trigger] l.selectors@[i])
    }

    proof fn lemma_simple_same_view(&self, id: NodeId, a: SimpleSelector, b: SimpleSelector)
        requires
            simple_view(a) == simple_view(b),
        ensures
            self.simple_matches(id, a) == self.simple_matches(id, b),
        decreases a, 0int,
    {
        if let SimpleSelector::Not(ia) = a {
            if let SimpleSelector::Not(ib) = b {
                self.lemma_parts_same_view(id, ia.parts@, ib.parts@);
            }
        }
    }

    proof fn lemma_parts_same_view(&self, id: NodeId, a: Seq<SimpleSelector>, b: Seq<SimpleSelector>)
        requires
            simples_view(a) == simples_view(b),
        ensures
            self.parts_match(id, a) == self.parts_match(id, b),
        decreases a, 1int,
    {
        lemma_simples_view_len(a);
        lemma_simples_view_len(b);
        if a.len() > 0 {
            let va = simples_view(a);
            assert(va.drop_last() == simples_view(a.drop_last()));
            assert(simples_view(b).drop_last() == simples_view(b.drop_last()));
            assert(va.last() == simple_view(a.last()));
            assert(simples_view(b).last() == simple_view(b.last()));
            self.lemma_parts_same_view(id, a.drop_last(), b.drop_last());
            self.lemma_simple_same_view(id, a.last(), b.last());
        }
    }

    proof fn lemma_nearest_same_view(&self, start: Option<NodeId>, a: CompoundSelector, b: CompoundSelector, fuel: nat)
        requires
            simples_view(a.parts@) == simples_view(b.parts@),
        ensures
            self.nearest_ancestor(start, a, fuel) == self.nearest_ancestor(start, b, fuel),
            self.nearest_prev(start, a, fuel) == self.nearest_prev(start, b, fuel),
        decreases fuel,
    {
        if let Some(n) = start {
            self.lemma_parts_same_view(n, a.parts@, b.parts@);
            if fuel > 0 {
                self.lemma_nearest_same_view(self.nodes@[n.0 as int].parent, a, b, (fuel - 1) as nat);
                self.lemma_nearest_same_view(self.nodes@[n.0 as int].prev_sibling, a, b, (fuel - 1) as nat);
            }
        }
    }

    proof fn lemma_walk_same_view(&self, current: NodeId, a: ComplexSelector, b: ComplexSelector, i: int)
        requires
            complex_view(a) == complex_view(b),
        ensures
            self.walk_matches(current, a.parts@, i) == self.walk_matches(current, b.parts@, i),
        decreases a.parts@.len() - i,
    {
        assert(complex_view(a).len() == a.parts@.len());
        assert(complex_view(b).len() == b.parts@.len());
        if 0 <= i < a.parts@.len() {
            assert(complex_view(a)[i] == complex_view(b)[i]);
            let ca = a.parts@[i].1;
            let cb = b.parts@[i].1;
            let n = self.nodes@[current.0 as int];
            let fuel = self.nodes@.len();
            self.lemma_nearest_same_view(n.parent, ca, cb, fuel);
            self.lemma_nearest_same_view(n.prev_sibling, ca, cb, fuel);
            if let Some(p) = n.parent {
                self.lemma_parts_same_view(p, ca.parts@, cb.parts@);
                self.lemma_walk_same_view(p, a, b, i + 1);
            }
            if let Some(p) = n.prev_sibling {
                self.lemma_parts_same_view(p, ca.parts@, cb.parts@);
                self.lemma_walk_same_view(p, a, b, i + 1);
            }
            if let Some(x) = self.nearest_ancestor(n.parent, ca, fuel) {
                self.lemma_walk_same_view(x, a, b, i + 1);
            }
            if let Some(x) = self.nearest_prev(n.prev_sibling, ca, fuel) {
                self.lemma_walk_same_view(x, a, b, i + 1);
            }
            self.lemma_walk_same_view(current, a, b, i + 1);
        }
    }

    /// Whether a node matches a selector list depends only on what the list says:
    /// two lists with the same view match the same nodes.
    pub proof fn law_matching_follows_view(&self, id: NodeId, a: SelectorList, b: SelectorList)
        requires
            list_view(a) == list_view(b),
        ensures
            self.list_matches(id, a) == self.list_matches(id, b),
    {
        assert(list_view(a).len() == a.selectors@.len());
        assert(list_view(b).len() == b.selectors@.len());
        assert forall|i: int| 0 <= i < a.selectors@.len() implies
            self.complex_matches(id, #[trigger] a.selectors@[i]) == self.complex_matches(id, b.selectors@[i]) by {
            assert(list_view(a)[i] == list_view(b)[i]);
            let ca = a.selectors@[i];
            let cb = b.selectors@[i];
            assert(complex_view(ca).len() == ca.parts@.len());
            assert(complex_view(cb).len() == cb.parts@.len());
            if ca.parts@.len() > 0 {
                assert(complex_view(ca)[0] == complex_view(cb)[0]);
                self.lemma_parts_same_view(id, ca.parts@[0].1.parts@, cb.parts@[0].1.parts@);
            }
            self.lemma_walk_same_view(id, ca, cb, 1);
        }
        if self.list_matches(id, a) {
            let i = choose|i: int| 0 <= i < a.selectors@.len() && self.complex_matches(id, #[trigger] a.selectors@[i]);
            assert(self.complex_matches(id, b.selectors@[i]));
        }
        if self.list_matches(id, b) {
            let i = choose|i: int| 0 <= i < b.selectors@.len() && self.complex_matches(id, #[trigger] b.selectors@[i]);
            assert(self.complex_matches(id, a.selectors@[i]));
        }
    }

    /// The parent and the siblings of a node are valid.
    pub proof fn lemma_neighbors_valid(&self, id: NodeId)
        requires
            self.wf(),
            self.valid(id),
        ensures
            self.nodes@[id.0 as int].parent matches Some(p) ==> self.valid(p),
            self.nodes@[id.0 as int].prev_sibling matches Some(p) ==> self.valid(p),
            self.nodes@[id.0 as int].next_sibling matches Some(p) ==> self.valid(p),
    {
        assert(self.node_links_ok(id.0 as int));
        if let Some(p) = self.nodes@[id.0 as int].parent {
            let ks = self.kids@[p.0 as int];
            assert(ks.contains(id));
            let k = choose|k: int| 0 <= k < ks.len() && ks[k] == id;
            assert(self.child_links_ok(p.0 as int, k));
            if k > 0 {
                assert(self.child_links_ok(p.0 as int, k - 1));
            }
            if k + 1 < ks.len() {
                assert(self.child_links_ok(p.0 as int, k + 1));
            }
        }
    }

    /// Tests whether a node matches a selector list.
    pub fn matches_selector(&self, id: NodeId, selector: &SelectorList) -> (r: bool)
        requires
            self.wf(),
            self.valid(id),
        ensures
            r == self.list_matches(id, *selector),
    {
        let mut i: usize = 0;
        while i < selector.selectors.len()
            invariant
                self.wf(),
                self.valid(id),
                i <= selector.selectors@.len(),
                forall|k: int| 0 <= k < i ==> !self.complex_matches(id, #[trigger] selector.selectors@[k]),
            decreases selector.selectors@.len() - i,
        {
            if self.matches_complex(id, &selector.selectors[i]) {
                return true;
            }
            i += 1;
        }
        false
    }

    fn matches_complex(&self, id: NodeId, selector: &ComplexSelector) -> (r: bool)
        requires
            self.wf(),
            self.valid(id),
        ensures
            r == self.complex_matches(id, *selector),
    {
        if selector.parts.len() == 0 {
            return false;
        }
        if !self.matches_compound(id, &selector.parts[0].1) {
            return false;
        }
        let ghost parts = selector.parts@;
        let mut current = id;
        let mut i: usize = 1;
        while i < selector.parts.len()
            invariant
                self.wf(),
                self.valid(current),
                parts == selector.parts@,
                1 <= i <= parts.len(),
                self.walk_matches(id, parts, 1) == self.walk_matches(current, parts, i as int),
            decreases parts.len() - i,
        {
            let comb = selector.parts[i].0;
            let compound = &selector.parts[i].1;
            proof { self.lemma_neighbors_valid(current); }
            match comb {
                Combinator::Descendant => {
                    let found = self.find_ancestor(self.nodes[current.0].parent, compound);
                    match found {
                        Some(a) => {
                            current = a;
                        },
                        None => {
                            return false;
                        },
                    }
                },
                Combinator::Child => {
                    match self.nodes[current.0].parent {
                        Some(p) => {
                            if self.matches_compound(p, compound) {
                                current = p;
                            } else {
                                return false;
                            }
                        },
                        None => {
                            return false;
                        },
                    }
                },
                Combinator::AdjacentSibling => {
                    match self.nodes[current.0].prev_sibling {
                        Some(p) => {
                            if self.matches_compound(p, compound) {
                                current = p;
                            } else {
                                return false;
                            }
                        },
                        None => {
                            return false;
                        },
                    }
                },
                Combinator::GeneralSibling => {
                    let found = self.find_prev(self.nodes[current.0].prev_sibling, compound);
                    match found {
                        Some(a) => {
                            current = a;
                        },
                        None => {
                            return false;
                        },
                    }
                },
                Combinator::Key => {},
            }
            i += 1;
        }
        true
    }

    /// The nearest node of the parent chain from `start` matching `c`.
    fn find_ancestor(&self, start: Option<NodeId>, c: &CompoundSelector) -> (r: Option<NodeId>)
        requires
            self.wf(),
            start matches Some(s) ==> self.valid(s),
        ensures
            r == self.nearest_ancestor(start, *c, self.nodes@.len() as nat),
            r matches Some(a) ==> self.valid(a),
    {
        let mut cur = start;
        let mut fuel: usize = self.nodes.len();
        while cur.is_some()
            invariant
                self.wf(),
                cur matches Some(s) ==> self.valid(s),
                self.nearest_ancestor(start, *c, self.nodes@.len() as nat) == self.nearest_ancestor(cur, *c, fuel as nat),
            decreases fuel,
        {
            let a = cur.unwrap();
            if self.matches_compound(a, c) {
                return Some(a);
            }
            if fuel == 0 {
                return None;
            }
            proof { self.lemma_neighbors_valid(a); }
            cur = self.nodes[a.0].parent;
            fuel -= 1;
        }
        None
    }

    /// The nearest node of the previous-sibling chain from `start` matching `c`.
    fn find_prev(&self, start: Option<NodeId>, c: &CompoundSelector) -> (r: Option<NodeId>)
        requires
            self.wf(),
            start matches Some(s) ==> self.valid(s),
        ensures
            r == self.nearest_prev(start, *c, self.nodes@.len() as nat),
            r matches Some(a) ==> self.valid(a),
    {
        let mut cur = start;
        let mut fuel: usize = self.nodes.len();
        while cur.is_some()
            invariant
                self.wf(),
                cur matches Some(s) ==> self.valid(s),
                self.nearest_prev(start, *c, self.nodes@.len() as nat) == self.nearest_prev(cur, *c, fuel as nat),
            decreases fuel,
        {
            let a = cur.unwrap();
            if self.matches_compound(a, c) {
                return Some(a);
            }
            if fuel == 0 {
                return None;
            }
            proof { self.lemma_neighbors_valid(a); }
            cur = self.nodes[a.0].prev_sibling;
            fuel -= 1;
        }
        None
    }

    fn matches_compound(&self, id: NodeId, selector: &CompoundSelector) -> (r: bool)
        requires
            self.wf(),
            self.valid(id),
        ensures
            r == self.compound_matches(id, *selector),
        decreases *selector, 1int,
    {
        let ghost parts = selector.parts@;
        let mut i: usize = 0;
        while i < selector.parts.len()
            invariant
                self.wf(),
                self.valid(id),
                parts == selector.parts@,
                i <= parts.len(),
                self.parts_match(id, parts.subrange(0, i as int)),
            decreases parts.len() - i,
        {
            proof {
                let w = parts.subrange(0, i + 1);
                assert(w.drop_last() =~= parts.subrange(0, i as int));
                assert(w.last() == parts[i as int]);
            }
            if !self.matches_simple(id, &selector.parts[i]) {
                proof { self.lemma_parts_prefix(id, parts, i as int + 1); }
                return false;
            }
            i += 1;
        }
        proof { assert(parts.subrange(0, parts.len() as int) =~= parts); }
        true
    }

    /// A failing prefix makes the whole compound fail.
    proof fn lemma_parts_prefix(&self, id: NodeId, parts: Seq<SimpleSelector>, k: int)
        requires
            0 <= k <= parts.len(),
            !self.parts_match(id, parts.subrange(0, k)),
        ensures
            !self.parts_match(id, parts),
        decreases parts.len() - k,
    {
        if k < parts.len() {
            let w = parts.subrange(0, k + 1);
            assert(w.drop_last() =~= parts.subrange(0, k));
            self.lemma_parts_prefix(id, parts, k + 1);
        } else {
            assert(parts.subrange(0, k) =~= parts);
        }
    }

    fn matches_simple(&self, id: NodeId, selector: &SimpleSelector) -> (r: bool)
        requires
            self.wf(),
            self.valid(id),
        ensures
            r == self.simple_matches(id, *selector),
        decreases *selector, 0int,
    {
        match selector {
            SimpleSelector::Universal => true,
            SimpleSelector::Tag(tag) => {
                match &self.nodes[id.0].kind {
                    NodeKind::Element(el) => str_eq(el.tag.as_str(), tag.as_str()),
                    _ => false,
                }
            },
            SimpleSelector::Class(cls) => {
                match &self.nodes[id.0].kind {
                    NodeKind::Element(el) => el.has_class(cls.as_str()),
                    _ => false,
                }
            },
            SimpleSelector::Id(sid) => {
                match &self.nodes[id.0].kind {
                    NodeKind::Element(el) => match &el.id {
                        Some(x) => str_eq(x.as_str(), sid.as_str()),
                        None => false,
                    },
                    _ => false,
                }
            },
            SimpleSelector::Attribute(attr) => self.matches_attr(id, attr),
            SimpleSelector::PseudoClass(pc) => self.matches_pseudo(id, pc),
            SimpleSelector::Not(inner) => !self.matches_compound(id, inner),
        }
    }

    fn matches_attr(&self, id: NodeId, attr: &AttrSelector) -> (r: bool)
        requires
            self.valid(id),
        ensures
            r == self.simple_matches(id, SimpleSelector::Attribute(*attr)),
    {
        match &self.nodes[id.0].kind {
            NodeKind::Element(el) => {
                match el.attr_position(attr.name.as_str()) {
                    Some(k) => {
                        let value = el.attributes[k].1.as_str();
                        match (&attr.op, &attr.value) {
                            (None, _) => true,
                            (Some(AttrOp::Equals), Some(v)) => str_eq(value, v.as_str()),
                            (Some(AttrOp::StartsWith), Some(v)) => crate::text::starts_with(value, v.as_str()),
                            (Some(AttrOp::EndsWith), Some(v)) => crate::text::ends_with(value, v.as_str()),
                            (Some(AttrOp::Contains), Some(v)) => crate::text::contains(value, v.as_str()),
                            _ => false,
                        }
                    },
                    None => false,
                }
            },
            _ => false,
        }
    }

    fn matches_pseudo(&self, id: NodeId, pseudo: &PseudoClass) -> (r: bool)
        requires
            self.wf(),
            self.valid(id),
        ensures
            r == self.simple_matches(id, SimpleSelector::PseudoClass(*pseudo)),
    {
        match pseudo {
            PseudoClass::FirstChild => {
                self.nodes[id.0].prev_sibling.is_none() && self.nodes[id.0].parent.is_some()
            },
            PseudoClass::LastChild => {
                self.nodes[id.0].next_sibling.is_none() && self.nodes[id.0].parent.is_some()
            },
            PseudoClass::NthChild(a, b) => {
                match self.nodes[id.0].parent {
                    Some(parent) => {
                        proof { self.lemma_neighbors_valid(id); }
                        let idx = self.position_in(parent, id);
                        nth_check(idx, *a, *b)
                    },
                    None => false,
                }
            },
        }
    }

    /// The 1-based position of `id` among the children of `parent`.
    fn position_in(&self, parent: NodeId, id: NodeId) -> (r: u128)
        requires
            self.wf(),
            self.valid(parent),
        ensures
            r as int == child_position(self.kids@[parent.0 as int], id),
            r <= 0x1_0000_0000_0000_0000,
    {
        let ghost cs = self.kids@[parent.0 as int];
        proof {
            self.lemma_kids_len(parent.0 as int);
            assert(self.node_links_ok(parent.0 as int));
        }
        let children = self.children(parent);
        let mut i: usize = 0;
        while i < children.len()
            invariant
                children@ == cs,
                cs == self.kids@[parent.0 as int],
                cs.no_duplicates(),
                i <= cs.len(),
                cs.len() <= usize::MAX,
                forall|k: int| 0 <= k < i ==> cs[k] != id,
            decreases cs.len() - i,
        {
            if children[i] == id {
                proof {
                    assert(cs.contains(id));
                    let j = cs.index_of(id);
                    assert(cs[j] == id);
                    assert(cs[i as int] == id);
                    assert(j == i);
                }
                return i as u128 + 1;
            }
            i += 1;
        }
        proof {
            assert(!cs.contains(id));
        }
        i as u128 + 1
    }
}

/// Whether the 1-based position `idx` is `a*n + b` for some `n >= 0`.
pub fn nth_check(idx: u128, a: i32, b: i32) -> (r: bool)
    requires
        idx <= 0x1_0000_0000_0000_0000,
    ensures
        r == nth_ok(idx as int, a as int, b as int),
{
    let idx_w = idx as i128;
    if a == 0 {
        return idx_w == b as i128;
    }
    let d: i128 = idx_w - b as i128;
    if d == 0 {
        return true;
    }
    if (d > 0) != (a > 0) {
        return false;
    }
    let dm: u128 = if d > 0 { d as u128 } else { (-d) as u128 };
    let am: u128 = if a > 0 { a as u128 } else { (-(a as i128)) as u128 };
    dm % am == 0
}

} // verus!
