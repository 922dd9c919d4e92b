//! HTML serialization: inner_html, outer_html, render_document.

use vstd::prelude::*;
use super::{Document, first_with_tag};
use super::node::{NodeId, NodeData, NodeKind};
use super::attributes::attrs_view;
use crate::text::push_str;

verus! {

/// How one character of text content is written in HTML.
pub open spec fn html_char(c: char) -> Seq<char> {
    if c == '&' {
        "&amp;"@
    } else if c == '<' {
        "&lt;"@
    } else if c == '>' {
        "&gt;"@
    } else if c == '"' {
        "&quot;"@
    } else if c == '\'' {
        "&#x27;"@
    } else {
        seq![c]
    }
}

/// How one character of an attribute value is written in HTML.
pub open spec fn attr_char(c: char) -> Seq<char> {
    if c == '&' {
        "&amp;"@
    } else if c == '<' {
        "&lt;"@
    } else if c == '>' {
        "&gt;"@
    } else if c == '"' {
        "&quot;"@
    } else {
        seq![c]
    }
}

/// Text content with the HTML special characters escaped.
pub open spec fn escape_html_spec(s: Seq<char>) -> Seq<char>
    decreases s.len(),
{
    if s.len() == 0 { Seq::empty() } else { escape_html_spec(s.drop_last()) + html_char(s.last()) }
}

/// An attribute value with `&`, `<`, `>` and `"` escaped.
pub open spec fn escape_attr_spec(s: Seq<char>) -> Seq<char>
    decreases s.len(),
{
    if s.len() == 0 { Seq::empty() } else { escape_attr_spec(s.drop_last()) + attr_char(s.last()) }
}

/// The attributes written as ` name="value"` pairs.
pub open spec fn attrs_html(v: Seq<(Seq<char>, Seq<char>)>) -> Seq<char>
    decreases v.len(),
{
    if v.len() == 0 {
        Seq::empty()
    } else {
        attrs_html(v.drop_last()) + seq![' '] + v.last().0 + "=\""@ + escape_attr_spec(v.last().1) + seq!['"']
    }
}

/// The HTML of node `id`, descending at most `fuel` levels.
pub open spec fn node_html(nodes: Seq<NodeData>, kids: Seq<Seq<NodeId>>, id: NodeId, fuel: nat) -> Seq<char>
    decreases fuel, 0int,
{
    let inner = if fuel == 0 { Seq::empty() } else { nodes_html(nodes, kids, kids[id.0 as int], (fuel - 1) as nat) };
    match nodes[id.0 as int].kind {
        NodeKind::Text(t) => escape_html_spec(t@),
        NodeKind::Comment(c) => "<!--"@ + c@ + "-->"@,
        NodeKind::Element(el) => {
            let open = seq!['<'] + el.tag@ + attrs_html(attrs_view(el.attributes@)) + seq!['>'];
            if el.self_closing {
                open
            } else {
                open + inner + "</"@ + el.tag@ + seq!['>']
            }
        },
        _ => inner,
    }
}

/// The concatenated HTML of the nodes `cs`.
pub open spec fn nodes_html(nodes: Seq<NodeData>, kids: Seq<Seq<NodeId>>, cs: Seq<NodeId>, fuel: nat) -> Seq<char>
    decreases fuel, cs.len() + 1,
{
    if cs.len() == 0 {
        Seq::empty()
    } else {
        nodes_html(nodes, kids, cs.drop_last(), fuel) + node_html(nodes, kids, cs.last(), fuel)
    }
}

/// Node `n` has no descendant more than `h` levels below it.
pub open spec fn height_below(nodes: Seq<NodeData>, kids: Seq<Seq<NodeId>>, n: NodeId, h: nat) -> bool
    decreases h,
{
    if h == 0 {
        kids[n.0 as int].len() == 0
    } else {
        forall|k: int| #![trigger kids[n.0 as int][k]] 0 <= k < kids[n.0 as int].len()
            ==> height_below(nodes, kids, kids[n.0 as int][k], (h - 1) as nat)
    }
}

/// Below a node no more than `h` levels deep, any depth of more than `h` levels
/// gives the same HTML.
proof fn lemma_html_fuel(nodes: Seq<NodeData>, kids: Seq<Seq<NodeId>>, n: NodeId, h: nat, f1: nat, f2: nat)
    requires
        height_below(nodes, kids, n, h),
        f1 > h,
        f2 > h,
    ensures
        node_html(nodes, kids, n, f1) == node_html(nodes, kids, n, f2),
    decreases h, 0int,
{
    let cs = kids[n.0 as int];
    if h == 0 {
        assert(nodes_html(nodes, kids, cs, (f1 - 1) as nat) == Seq::<char>::empty());
        assert(nodes_html(nodes, kids, cs, (f2 - 1) as nat) == Seq::<char>::empty());
    } else {
        lemma_htmls_fuel(nodes, kids, cs, (h - 1) as nat, (f1 - 1) as nat, (f2 - 1) as nat);
    }
}

/// The same for a list of such nodes.
proof fn lemma_htmls_fuel(nodes: Seq<NodeData>, kids: Seq<Seq<NodeId>>, cs: Seq<NodeId>, h: nat, f1: nat, f2: nat)
    requires
        forall|k: int| #![trigger cs[k]] 0 <= k < cs.len() ==> height_below(nodes, kids, cs[k], h),
        f1 > h,
        f2 > h,
    ensures
        nodes_html(nodes, kids, cs, f1) == nodes_html(nodes, kids, cs, f2),
    decreases h, cs.len() + 1,
{
    if cs.len() > 0 {
        let d = cs.drop_last();
        assert forall|k: int| #![trigger d[k]] 0 <= k < d.len() implies height_below(nodes, kids, d[k], h) by {
            assert(d[k] == cs[k]);
        }
        lemma_htmls_fuel(nodes, kids, d, h, f1, f2);
        assert(cs.last() == cs[cs.len() - 1]);
        lemma_html_fuel(nodes, kids, cs.last(), h, f1, f2);
    }
}

/// Escapes `&`, `<`, `>`, `"` and `'` for use as HTML text.
pub fn escape_html(s: &str) -> (r: String)
    ensures
        r@ == escape_html_spec(s@),
{
    let cs = crate::text::chars_of(s);
    let mut out = String::new();
    let mut i: usize = 0;
    while i < cs.len()
        invariant
            cs@ == s@,
            i <= cs@.len(),
            out@ == escape_html_spec(cs@.subrange(0, i as int)),
        decreases cs@.len() - i,
    {
        let c = cs[i];
        proof {
            let w = cs@.subrange(0, i + 1);
            assert(w.drop_last() =~= cs@.subrange(0, i as int));
            assert(w.last() == c);
        }
        if c == '&' {
            push_str(&mut out, "&amp;");
        } else if c == '<' {
            push_str(&mut out, "&lt;");
        } else if c == '>' {
            push_str(&mut out, "&gt;");
        } else if c == '"' {
            push_str(&mut out, "&quot;");
        } else if c == '\'' {
            push_str(&mut out, "&#x27;");
        } else {
            out.push(c);
        }
        i += 1;
    }
    proof { assert(cs@.subrange(0, cs@.len() as int) =~= cs@); }
    out
}

/// Escapes `&`, `<`, `>` and `"` for use inside a double-quoted attribute value.
pub fn escape_attr(s: &str) -> (r: String)
    ensures
        r@ == escape_attr_spec(s@),
{
    let cs = crate::text::chars_of(s);
    let mut out = String::new();
    let mut i: usize = 0;
    while i < cs.len()
        invariant
            cs@ == s@,
            i <= cs@.len(),
            out@ == escape_attr_spec(cs@.subrange(0, i as int)),
        decreases cs@.len() - i,
    {
        let c = cs[i];
        proof {
            let w = cs@.subrange(0, i + 1);
            assert(w.drop_last() =~= cs@.subrange(0, i as int));
            assert(w.last() == c);
        }
        if c == '&' {
            push_str(&mut out, "&amp;");
        } else if c == '<' {
            push_str(&mut out, "&lt;");
        } else if c == '>' {
            push_str(&mut out, "&gt;");
        } else if c == '"' {
            push_str(&mut out, "&quot;");
        } else {
            out.push(c);
        }
        i += 1;
    }
    proof { assert(cs@.subrange(0, cs@.len() as int) =~= cs@); }
    out
}

impl Document {
    /// How many levels the serialization of a node descends: one more than the
    /// number of nodes (so that the children come out as `inner_html` gives them).
    pub open spec fn html_depth(&self) -> nat {
        if self.nodes@.len() < usize::MAX { (self.nodes@.len() + 1) as nat } else { self.nodes@.len() as nat }
    }

    /// The HTML of `id` and its subtree.
    pub open spec fn html_of(&self, id: NodeId) -> Seq<char> {
        node_html(self.nodes@, self.kids@, id, self.html_depth())
    }

    /// The HTML of the children of `id`.
    pub open spec fn inner_html_of(&self, id: NodeId) -> Seq<char> {
        nodes_html(self.nodes@, self.kids@, self.kids@[id.0 as int], self.nodes@.len() as nat)
    }

    /// Outer HTML wraps inner HTML: an element that does not close itself is its
    /// opening tag with its attributes, its inner HTML and its closing tag; a
    /// self-closing element is its opening tag alone; a document or fragment node
    /// is its inner HTML.
    pub proof fn law_outer_wraps_inner(&self, id: NodeId)
        requires
            self.valid(id),
            self.nodes@.len() < usize::MAX,
        ensures
            match self.nodes@[id.0 as int].kind {
                NodeKind::Element(el) => self.html_of(id) == seq!['<'] + el.tag@ + attrs_html(attrs_view(el.attributes@)) + seq!['>']
                    + (if el.self_closing { Seq::empty() } else { self.inner_html_of(id) + "</"@ + el.tag@ + seq!['>'] }),
                NodeKind::Text(t) => self.html_of(id) == escape_html_spec(t@),
                NodeKind::Comment(c) => self.html_of(id) == "<!--"@ + c@ + "-->"@,
                _ => self.html_of(id) == self.inner_html_of(id),
            },
    {
        if let NodeKind::Element(el) = self.nodes@[id.0 as int].kind {
            let open = seq!['<'] + el.tag@ + attrs_html(attrs_view(el.attributes@)) + seq!['>'];
            if el.self_closing {
                assert(open + Seq::<char>::empty() =~= open);
            } else {
                assert(open + self.inner_html_of(id) + "</"@ + el.tag@ + seq!['>']
                    =~= open + (self.inner_html_of(id) + "</"@ + el.tag@ + seq!['>']));
            }
        }
    }

    /// The outer HTML of the nodes `cs`, one after another.
    pub open spec fn outer_concat(&self, cs: Seq<NodeId>) -> Seq<char>
        decreases cs.len(),
    {
        if cs.len() == 0 {
            Seq::empty()
        } else {
            self.outer_concat(cs.drop_last()) + self.html_of(cs.last())
        }
    }

    /// Inner HTML is the outer HTML of the children, one after another. This holds
    /// of every node whose subtree is less deep than the arena is large, which is
    /// every node of a document where no chain of parent links loops.
    pub proof fn law_inner_is_children_outer(&self, id: NodeId)
        requires
            self.valid(id),
            self.nodes@.len() < usize::MAX,
            height_below(self.nodes@, self.kids@, id, self.nodes@.len() as nat),
        ensures
            self.inner_html_of(id) == self.outer_concat(self.kids@[id.0 as int]),
    {
        let n = self.nodes@.len() as nat;
        let cs = self.kids@[id.0 as int];
        assert(n > 0);
        assert forall|k: int| #![trigger cs[k]] 0 <= k < cs.len() implies height_below(self.nodes@, self.kids@, cs[k], (n - 1) as nat) by {
            assert(cs[k] == self.kids@[id.0 as int][k]);
        }
        self.lemma_concat_prefix(cs, cs.len() as int);
        assert(cs.subrange(0, cs.len() as int) =~= cs);
    }

    proof fn lemma_concat_prefix(&self, cs: Seq<NodeId>, i: int)
        requires
            0 <= i <= cs.len(),
            self.nodes@.len() < usize::MAX,
            self.nodes@.len() > 0,
            forall|k: int| #![trigger cs[k]] 0 <= k < cs.len()
                ==> height_below(self.nodes@, self.kids@, cs[k], (self.nodes@.len() - 1) as nat),
        ensures
            nodes_html(self.nodes@, self.kids@, cs.subrange(0, i), self.nodes@.len() as nat) == self.outer_concat(cs.subrange(0, i)),
        decreases i,
    {
        let p = cs.subrange(0, i);
        if i > 0 {
            self.lemma_concat_prefix(cs, i - 1);
            assert(p.drop_last() =~= cs.subrange(0, i - 1));
            assert(p.last() == cs[i - 1]);
            lemma_html_fuel(self.nodes@, self.kids@, cs[i - 1], (self.nodes@.len() - 1) as nat,
                self.nodes@.len() as nat, self.html_depth());
        }
    }

    /// Appends the HTML of the children of `id` to `out`.
    fn serialize_children(&self, id: NodeId, out: &mut String, fuel: usize)
        requires
            self.wf(),
            self.valid(id),
        ensures
            final(out)@ == old(out)@ + nodes_html(self.nodes@, self.kids@, self.kids@[id.0 as int], fuel as nat),
        decreases fuel, 1int,
    {
        let ghost cs = self.kids@[id.0 as int];
        let ghost start = out@;
        proof {
            self.lemma_kids_valid(id);
            assert(cs.subrange(0, 0) =~= Seq::<NodeId>::empty());
            assert(start + Seq::<char>::empty() =~= start);
        }
        let children = self.children(id);
        let mut i: usize = 0;
        while i < children.len()
            invariant
                self.wf(),
                children@ == cs,
                forall|k: int| 0 <= k < cs.len() ==> self.valid(#[trigger] cs[k]),
                i <= cs.len(),
                out@ == start + nodes_html(self.nodes@, self.kids@, cs.subrange(0, i as int), fuel as nat),
            decreases cs.len() - i,
        {
            let c = children[i];
            self.serialize_node(c, out, fuel);
            proof {
                let w = cs.subrange(0, i + 1);
                assert(w.drop_last() =~= cs.subrange(0, i as int));
                assert(w.last() == c);
            }
            i += 1;
        }
        proof { assert(cs.subrange(0, cs.len() as int) =~= cs); }
    }

    /// Appends the HTML of node `id` to `out`.
    fn serialize_node(&self, id: NodeId, out: &mut String, fuel: usize)
        requires
            self.wf(),
            self.valid(id),
        ensures
            final(out)@ == old(out)@ + node_html(self.nodes@, self.kids@, id, fuel as nat),
        decreases fuel, 0int,
    {
        let ghost inner = if fuel == 0 { Seq::<char>::empty() } else {
            nodes_html(self.nodes@, self.kids@, self.kids@[id.0 as int], (fuel - 1) as nat)
        };
        match &self.nodes[id.0].kind {
            NodeKind::Text(t) => {
                let escaped = escape_html(t.as_str());
                push_str(out, escaped.as_str());
            },
            NodeKind::Comment(c) => {
                push_str(out, "<!--");
                push_str(out, c.as_str());
                push_str(out, "-->");
                proof { assert(out@ =~= old(out)@ + ("<!--"@ + c@ + "-->"@)); }
            },
            NodeKind::Element(el) => {
                let ghost o0 = out@;
                out.push('<');
                push_str(out, el.tag.as_str());
                let ghost av = attrs_view(el.attributes@);
                let ghost o1 = out@;
                proof { assert(av.subrange(0, 0) =~= Seq::<(Seq<char>, Seq<char>)>::empty()); assert(o1 + Seq::<char>::empty() =~= o1); }
                let mut i: usize = 0;
                while i < el.attributes.len()
                    invariant
                        av == attrs_view(el.attributes@),
                        i <= av.len(),
                        out@ == o1 + attrs_html(av.subrange(0, i as int)),
                    decreases el.attributes@.len() - i,
                {
                    out.push(' ');
                    push_str(out, el.attributes[i].0.as_str());
                    push_str(out, "=\"");
                    let escaped = escape_attr(el.attributes[i].1.as_str());
                    push_str(out, escaped.as_str());
                    out.push('"');
                    proof {
                        let w = av.subrange(0, i + 1);
                        assert(w.drop_last() =~= av.subrange(0, i as int));
                        assert(w.last() == av[i as int]);
                        assert(out@ =~= o1 + attrs_html(w));
                    }
                    i += 1;
                }
                proof { assert(av.subrange(0, av.len() as int) =~= av); }
                out.push('>');
                let ghost open = seq!['<'] + el.tag@ + attrs_html(av) + seq!['>'];
                proof { assert(out@ =~= o0 + open); }
                if el.self_closing {
                    return;
                }
                if fuel > 0 {
                    self.serialize_children(id, out, fuel - 1);
                } else {
                    proof { assert(out@ + Seq::<char>::empty() =~= out@); }
                }
                push_str(out, "</");
                push_str(out, el.tag.as_str());
                out.push('>');
                proof { assert(out@ =~= o0 + (open + inner + "</"@ + el.tag@ + seq!['>'])); }
            },
            _ => {
                if fuel > 0 {
                    self.serialize_children(id, out, fuel - 1);
                } else {
                    proof { assert(old(out)@ + Seq::<char>::empty() =~= old(out)@); }
                }
            },
        }
    }

    /// Returns the inner HTML of a node (its children serialized).
    pub fn inner_html(&self, id: NodeId) -> (r: String)
        requires
            self.wf(),
            self.valid(id),
        ensures
            r@ == nodes_html(self.nodes@, self.kids@, self.kids@[id.0 as int], self.nodes@.len() as nat),
    {
        let mut out = String::new();
        self.serialize_children(id, &mut out, self.nodes.len());
        proof { assert(out@ =~= nodes_html(self.nodes@, self.kids@, self.kids@[id.0 as int], self.nodes@.len() as nat)); }
        out
    }

    /// Returns the outer HTML of a node (the node itself and its children).
    pub fn outer_html(&self, id: NodeId) -> (r: String)
        requires
            self.wf(),
            self.valid(id),
        ensures
            r@ == self.html_of(id),
    {
        let mut out = String::new();
        let depth = if self.nodes.len() < usize::MAX { self.nodes.len() + 1 } else { self.nodes.len() };
        self.serialize_node(id, &mut out, depth);
        proof { assert(out@ =~= self.html_of(id)); }
        out
    }

    /// Renders a full `<!DOCTYPE html>` document string.
    pub fn render_document(&self) -> (r: String)
        requires
            self.wf(),
        ensures
            r@ == "<!DOCTYPE html>\n"@ + (match first_with_tag(self.nodes@, self.kids@[self.root.0 as int], "html"@) {
                Some(h) => self.html_of(h),
                None => Seq::empty(),
            }),
    {
        let mut out = String::new();
        push_str(&mut out, "<!DOCTYPE html>\n");
        match self.document_element() {
            Some(html) => {
                proof {
                    let rk = self.kids@[self.root.0 as int];
                    assert(rk.skip(0) =~= rk);
                    self.lemma_first_with_tag_valid(rk, "html"@, self.root.0 as int);
                }
                let depth = if self.nodes.len() < usize::MAX { self.nodes.len() + 1 } else { self.nodes.len() };
                self.serialize_node(html, &mut out, depth);
            },
            None => {
                proof { assert(out@ =~= "<!DOCTYPE html>\n"@ + Seq::<char>::empty()); }
            },
        }
        out
    }
}

} // verus!
