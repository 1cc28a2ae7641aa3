//! The document tree: classification, building and validation.
use crate::builder::{build_element, strs_view};
use crate::element::node_wf;
use crate::error::Error;
use crate::event::{comment_text, Event, Rule};
use crate::node::{node_view, Node, NodeV};
use crate::text::{all_ws, is_blank};
use vstd::prelude::*;

verus! {

broadcast use vstd::std_specs::vec::axiom_vec_decreases_to_view, vstd::seq::axiom_seq_index_decreases;

/// Document, DocumentFragment or Empty.
#[derive(Debug, Clone, Copy, PartialEq, Eq, Structural)]
pub enum DomVariant {
    /// A whole document: at most one top-level `html` element, optionally
    /// after a doctype.
    Document,
    /// A partial snippet: any top-level elements but `html`, `head` and `body`.
    DocumentFragment,
    /// The input held nothing.
    Empty,
}

/// The parsed tree.
#[derive(Debug)]
pub struct Dom {
    /// The type of the tree that was parsed
    pub tree_type: DomVariant,
    /// The root children of the tree
    pub children: Vec<Node>,
    /// The warnings collected while parsing
    pub warnings: Vec<String>,
}

/// The views of a sequence of nodes.
pub open spec fn nodes_view(s: Seq<Node>) -> Seq<NodeV> {
    s.map_values(|n: Node| node_view(n))
}

/// The events that may stand at the top level of an event stream.
pub open spec fn top_level_ok(evs: Seq<Event>) -> bool {
    forall|i: int| 0 <= i < evs.len() ==> match (#[trigger] evs[i]).rule {
        Rule::Doctype | Rule::NodeElement | Rule::NodeText | Rule::NodeComment | Rule::Eoi => true,
        _ => false,
    }
}

/// The type, root nodes and warnings after the top-level events `evs[i..]`.
pub open spec fn dom_from(
    evs: Seq<Event>,
    i: int,
    tt: DomVariant,
    ch: Seq<NodeV>,
    w: Seq<Seq<char>>,
) -> (DomVariant, Seq<NodeV>, Seq<Seq<char>>)
    decreases evs.len() - i,
{
    if i < 0 || i >= evs.len() {
        (tt, ch, w)
    } else {
        let e = evs[i];
        let content = if tt == DomVariant::Empty { DomVariant::DocumentFragment } else { tt };
        match e.rule {
            Rule::Doctype => dom_from(
                evs,
                i + 1,
                if tt == DomVariant::Empty { DomVariant::Document } else { tt },
                ch,
                w,
            ),
            Rule::NodeElement => {
                let (r, w2) = build_element(e, w);
                match r {
                    Ok(Some(n)) => dom_from(evs, i + 1, content, ch.push(n), w2),
                    Ok(None) => dom_from(evs, i + 1, tt, ch, w2),
                    Err(m) => dom_from(evs, i + 1, tt, ch, w2.push(m)),
                }
            },
            Rule::NodeText => {
                if all_ws(e.text@) {
                    dom_from(evs, i + 1, tt, ch, w)
                } else {
                    dom_from(evs, i + 1, content, ch.push(NodeV::Text(e.text@)), w)
                }
            },
            Rule::NodeComment => dom_from(evs, i + 1, tt, ch.push(NodeV::Comment(comment_text(e))), w),
            _ => dom_from(evs, i + 1, tt, ch, w),
        }
    }
}

/// `c` equals the lower-case ASCII letter or character `l`, ignoring ASCII case.
pub open spec fn char_eq_ci(c: char, l: char) -> bool {
    c == l || ('a' <= l && l <= 'z' && (c as u32) + 32 == (l as u32))
}

/// `name` equals the lower-case word `lower`, ignoring ASCII case.
pub open spec fn named(name: Seq<char>, lower: Seq<char>) -> bool {
    name.len() == lower.len() && forall|i: int| 0 <= i < name.len() ==> char_eq_ci(#[trigger] name[i], lower[i])
}

pub open spec fn is_html(n: NodeV) -> bool {
    match n {
        NodeV::Element(e) => named(e.name, "html"@),
        _ => false,
    }
}

/// The number of top-level `html` elements.
pub open spec fn count_html(ch: Seq<NodeV>) -> nat
    decreases ch.len(),
{
    if ch.len() == 0 {
        0
    } else {
        count_html(ch.drop_last()) + if is_html(ch.last()) { 1nat } else { 0 }
    }
}

/// The check of a fragment's root nodes `ch[i..]`.
pub open spec fn fragment_from(ch: Seq<NodeV>, i: int, seen_html: bool, seen_elements: bool, tt: DomVariant) -> Result<
    DomVariant,
    Seq<char>,
>
    decreases ch.len() - i,
{
    if i < 0 || i >= ch.len() {
        Ok(tt)
    } else {
        match ch[i] {
            NodeV::Element(e) => {
                if named(e.name, "html"@) {
                    if seen_html || seen_elements {
                        Err("A document fragment should not include "@ + e.name)
                    } else {
                        fragment_from(ch, i + 1, true, seen_elements, DomVariant::Document)
                    }
                } else if named(e.name, "head"@) || named(e.name, "body"@) {
                    Err("A document fragment should not include "@ + e.name)
                } else {
                    fragment_from(ch, i + 1, seen_html, true, tt)
                }
            },
            _ => fragment_from(ch, i + 1, seen_html, seen_elements, tt),
        }
    }
}

/// The final type of a tree of type `tt` with root nodes `ch`, or the error
/// that rejects it.
pub open spec fn validate(tt: DomVariant, ch: Seq<NodeV>) -> Result<DomVariant, Seq<char>> {
    match tt {
        DomVariant::Empty => Ok(if ch.len() > 0 { DomVariant::DocumentFragment } else { DomVariant::Empty }),
        DomVariant::Document => {
            if count_html(ch) > 1 {
                Err("Document with multiple HTML tags"@)
            } else {
                Ok(DomVariant::Document)
            }
        },
        DomVariant::DocumentFragment => fragment_from(ch, 0, false, false, DomVariant::DocumentFragment),
    }
}

/// The tree that a stream of top-level events gives: its type, root nodes
/// and warnings; or the validation error.
pub open spec fn parse_spec(evs: Seq<Event>) -> Result<(DomVariant, Seq<NodeV>, Seq<Seq<char>>), Seq<char>> {
    let (tt, ch, w) = dom_from(evs, 0, DomVariant::Empty, Seq::empty(), Seq::empty());
    match validate(tt, ch) {
        Ok(t) => Ok((t, ch, w)),
        Err(m) => Err(m),
    }
}

/// The root nodes that a stream of top-level events gives, warnings and
/// dropped elements aside.
pub open spec fn nodes_from(evs: Seq<Event>, i: int, ch: Seq<NodeV>) -> Seq<NodeV>
    decreases evs.len() - i,
{
    if i < 0 || i >= evs.len() {
        ch
    } else {
        let e = evs[i];
        match e.rule {
            Rule::NodeElement => match build_element(e, Seq::empty()).0 {
                Ok(Some(n)) => nodes_from(evs, i + 1, ch.push(n)),
                _ => nodes_from(evs, i + 1, ch),
            },
            Rule::NodeText => {
                if all_ws(e.text@) {
                    nodes_from(evs, i + 1, ch)
                } else {
                    nodes_from(evs, i + 1, ch.push(NodeV::Text(e.text@)))
                }
            },
            Rule::NodeComment => nodes_from(evs, i + 1, ch.push(NodeV::Comment(comment_text(e)))),
            _ => nodes_from(evs, i + 1, ch),
        }
    }
}

/// Whether `name` equals the lower-case word `lower`, ignoring ASCII case.
pub fn is_named(name: &str, lower: &str) -> (r: bool)
    ensures
        r == named(name@, lower@),
{
    let n = name.unicode_len();
    if n != lower.unicode_len() {
        return false;
    }
    let mut i: usize = 0;
    while i < n
        invariant
            n == name@.len(),
            n == lower@.len(),
            i <= n,
            forall|j: int| 0 <= j < i ==> char_eq_ci(#[trigger] name@[j], lower@[j]),
        decreases n - i,
    {
        let c = name.get_char(i);
        let l = lower.get_char(i);
        if !(c == l || ('a' <= l && l <= 'z' && (l as u32) - 32 == (c as u32))) {
            return false;
        }
        i = i + 1;
    }
    true
}

fn is_html_node(n: &Node) -> (r: bool)
    ensures
        r == is_html(node_view(*n)),
{
    match n {
        Node::Element(e) => is_named(e.name.as_str(), "html"),
        _ => false,
    }
}

impl Default for Dom {
    fn default() -> (r: Self)
        ensures
            r.tree_type == DomVariant::Empty,
            r.children@.len() == 0,
            r.warnings@.len() == 0,
    {
        Dom { tree_type: DomVariant::Empty, children: Vec::new(), warnings: Vec::new() }
    }
}

impl Dom {
    /// Well-formed: every root node is well-formed.
    pub open spec fn wf(self) -> bool {
        forall|i: int| 0 <= i < self.children@.len() ==> #[trigger] node_wf(self.children@[i])
    }

    /// An empty tree.
    pub fn new() -> (r: Self)
        ensures
            r.tree_type == DomVariant::Empty,
            r.children@.len() == 0,
            r.warnings@.len() == 0,
    {
        Self::default()
    }

    /// Builds and validates the tree of a stream of top-level events.
    pub fn parse(events: &Vec<Event>) -> (r: Result<Self, Error>)
        requires
            top_level_ok(events@),
        ensures
            match (r, parse_spec(events@)) {
                (Ok(d), Ok((tt, ch, w))) => d.tree_type == tt && nodes_view(d.children@) == ch
                    && strs_view(d.warnings@) == w && d.wf(),
                (Err(e), Err(m)) => e.msg() == m,
                _ => false,
            },
    {
        Self::build_dom(events)
    }

    fn build_dom(events: &Vec<Event>) -> (r: Result<Self, Error>)
        requires
            top_level_ok(events@),
        ensures
            match (r, parse_spec(events@)) {
                (Ok(d), Ok((tt, ch, w))) => d.tree_type == tt && nodes_view(d.children@) == ch
                    && strs_view(d.warnings@) == w && d.wf(),
                (Err(e), Err(m)) => e.msg() == m,
                _ => false,
            },
    {
        let mut dom = Dom::new();
        let n = events.len();
        let mut i: usize = 0;
        proof {
            assert(nodes_view(dom.children@) =~= Seq::<NodeV>::empty());
            assert(strs_view(dom.warnings@) =~= Seq::<Seq<char>>::empty());
        }
        while i < n
            invariant
                n == events@.len(),
                i <= n,
                top_level_ok(events@),
                dom.wf(),
                dom_from(events@, 0, DomVariant::Empty, Seq::empty(), Seq::empty()) == dom_from(
                    events@,
                    i as int,
                    dom.tree_type,
                    nodes_view(dom.children@),
                    strs_view(dom.warnings@),
                ),
            decreases n - i,
        {
            let e = &events[i];
            let ghost cb = dom.children@;
            let ghost wb = dom.warnings@;
            match e.rule {
                Rule::Doctype => {
                    if dom.tree_type == DomVariant::Empty {
                        dom.tree_type = DomVariant::Document;
                    }
                },
                Rule::NodeElement => {
                    match Node::build_node_element(e, &mut dom.warnings) {
                        Ok(Some(node)) => {
                            if dom.tree_type == DomVariant::Empty {
                                dom.tree_type = DomVariant::DocumentFragment;
                            }
                            dom.children.push(node);
                            proof {
                                assert(nodes_view(dom.children@) =~= nodes_view(cb).push(node_view(node)));
                            }
                        },
                        Ok(None) => {},
                        Err(err) => {
                            let ghost wm = dom.warnings@;
                            dom.warnings.push(err.message());
                            proof {
                                assert(strs_view(dom.warnings@) =~= strs_view(wm).push(err.msg()));
                            }
                        },
                    }
                },
                Rule::NodeText => {
                    if !is_blank(e.text.as_str()) {
                        if dom.tree_type == DomVariant::Empty {
                            dom.tree_type = DomVariant::DocumentFragment;
                        }
                        dom.children.push(Node::Text(e.text.clone()));
                        proof {
                            assert(nodes_view(dom.children@) =~= nodes_view(cb).push(NodeV::Text(e.text@)));
                        }
                    }
                },
                Rule::NodeComment => {
                    let t = e.comment_content();
                    dom.children.push(Node::Comment(t));
                    proof {
                        assert(nodes_view(dom.children@) =~= nodes_view(cb).push(NodeV::Comment(t@)));
                    }
                },
                _ => {},
            }
            i = i + 1;
        }
        let ghost ch = nodes_view(dom.children@);
        match dom.tree_type {
            DomVariant::Empty => {
                if dom.children.len() > 0 {
                    dom.tree_type = DomVariant::DocumentFragment;
                }
                Ok(dom)
            },
            DomVariant::Document => {
                let mut count: usize = 0;
                let m = dom.children.len();
                let mut j: usize = 0;
                while j < m
                    invariant
                        m == dom.children@.len(),
                        ch == nodes_view(dom.children@),
                        j <= m,
                        count == count_html(ch.subrange(0, j as int)),
                        count <= j,
                    decreases m - j,
                {
                    proof {
                        assert(ch.subrange(0, j + 1).drop_last() == ch.subrange(0, j as int));
                    }
                    if is_html_node(&dom.children[j]) {
                        count = count + 1;
                    }
                    j = j + 1;
                }
                proof {
                    assert(ch.subrange(0, m as int) == ch);
                }
                if count > 1 {
                    Err(Error::Parsing(String::from_str("Document with multiple HTML tags")))
                } else {
                    Ok(dom)
                }
            },
            DomVariant::DocumentFragment => {
                let mut seen_html = false;
                let mut seen_elements = false;
                let mut tt = DomVariant::DocumentFragment;
                let m = dom.children.len();
                let mut j: usize = 0;
                while j < m
                    invariant
                        m == dom.children@.len(),
                        ch == nodes_view(dom.children@),
                        j <= m,
                        dom_from(events@, 0, DomVariant::Empty, Seq::empty(), Seq::empty()) == (
                            DomVariant::DocumentFragment,
                            ch,
                            strs_view(dom.warnings@),
                        ),
                        fragment_from(ch, 0, false, false, DomVariant::DocumentFragment) == fragment_from(
                            ch,
                            j as int,
                            seen_html,
                            seen_elements,
                            tt,
                        ),
                    decreases m - j,
                {
                    proof {
                        assert(ch[j as int] == node_view(dom.children@[j as int]));
                    }
                    match &dom.children[j] {
                        Node::Element(el) => {
                            if is_named(el.name.as_str(), "html") {
                                if seen_html || seen_elements {
                                    let msg = String::from_str("A document fragment should not include ").concat(
                                        el.name.as_str(),
                                    );
                                    return Err(Error::Parsing(msg));
                                }
                                tt = DomVariant::Document;
                                seen_html = true;
                            } else if is_named(el.name.as_str(), "head") || is_named(el.name.as_str(), "body") {
                                let msg = String::from_str("A document fragment should not include ").concat(
                                    el.name.as_str(),
                                );
                                return Err(Error::Parsing(msg));
                            } else {
                                seen_elements = true;
                            }
                        },
                        _ => {},
                    }
                    j = j + 1;
                }
                dom.tree_type = tt;
                Ok(dom)
            },
        }
    }
}

} // verus!
