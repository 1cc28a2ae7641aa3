//! General properties of the builder and the formatter.
use crate::builder::{attribute_of, build_element, build_inner, empty_element};
use crate::text::words;
use crate::element::{
    attr_map, has_attr, has_key, keys_sorted, lemma_attr_map_eq, lemma_attr_map_index, opt_view, Attribute,
    Element,
};
use crate::dom::{dom_from, parse_spec, DomVariant};
use crate::event::{comment_text, Event, Rule};
use crate::format::{
    attr_text, attrs_len, attrs_text, child_depth, inline_len, render_children, render_element, value_len,
    wrapped,
};
use crate::node::{ElementV, NodeV};
use crate::options::{indent, FormattingOptions};
use crate::order::{lemma_lt_irrefl, lemma_lt_trans, seq_lt};
use vstd::prelude::*;

verus! {

/// Two attributes that agree on their key and value.
pub open spec fn same_attr(x: Attribute, y: Attribute) -> bool {
    x.0@ == y.0@ && opt_view(x.1) == opt_view(y.1)
}

proof fn lemma_drop_last_map(a: Seq<Attribute>)
    requires
        keys_sorted(a),
        a.len() > 0,
    ensures
        keys_sorted(a.drop_last()),
        attr_map(a.drop_last()) == attr_map(a).remove(a.last().0@),
{
    let s = a.drop_last();
    let k = a.last().0@;
    let m = attr_map(a).remove(k);
    assert forall|x: Seq<char>, v: Option<Seq<char>>| #[trigger]
        has_attr(s, x, v) == (m.contains_key(x) && m[x] == v) by {
        if has_attr(s, x, v) {
            let i = choose|i: int| 0 <= i < s.len() && #[trigger] s[i].0@ == x && opt_view(s[i].1) == v;
            assert(a[i] == s[i]);
            assert(seq_lt(a[i].0@, a[a.len() - 1].0@));
            if x == k {
                lemma_lt_irrefl(k);
            }
            assert(has_attr(a, x, v));
            lemma_attr_map_index(a, x, v);
        }
        if m.contains_key(x) && m[x] == v {
            assert(has_key(a, x));
            let i = choose|i: int| 0 <= i < a.len() && #[trigger] a[i].0@ == x;
            assert(has_attr(a, x, opt_view(a[i].1)));
            lemma_attr_map_index(a, x, opt_view(a[i].1));
            assert(i != a.len() - 1);
            assert(s[i] == a[i]);
        }
    }
    lemma_attr_map_eq(s, m);
}

/// Two attribute lists in key order that map each key to the same value
/// agree entry by entry.
pub proof fn lemma_sorted_unique(a: Seq<Attribute>, b: Seq<Attribute>)
    requires
        keys_sorted(a),
        keys_sorted(b),
        attr_map(a) == attr_map(b),
    ensures
        a.len() == b.len(),
        forall|i: int| 0 <= i < a.len() ==> same_attr(#[trigger] a[i], b[i]),
    decreases a.len(),
{
    if a.len() == 0 {
        if b.len() > 0 {
            assert(has_attr(b, b[0].0@, opt_view(b[0].1)));
            lemma_attr_map_index(b, b[0].0@, opt_view(b[0].1));
            assert(!has_key(a, b[0].0@));
        }
    } else if b.len() == 0 {
        assert(has_attr(a, a[0].0@, opt_view(a[0].1)));
        lemma_attr_map_index(a, a[0].0@, opt_view(a[0].1));
        assert(!has_key(b, a[0].0@));
    } else {
        let ka = a.last().0@;
        let kb = b.last().0@;
        let la = a.len() - 1;
        let lb = b.len() - 1;
        assert(has_attr(a, ka, opt_view(a.last().1)));
        lemma_attr_map_index(a, ka, opt_view(a.last().1));
        assert(has_attr(b, kb, opt_view(b.last().1)));
        lemma_attr_map_index(b, kb, opt_view(b.last().1));
        assert(has_key(b, ka));
        assert(has_key(a, kb));
        let j = choose|j: int| 0 <= j < b.len() && #[trigger] b[j].0@ == ka;
        let i = choose|i: int| 0 <= i < a.len() && #[trigger] a[i].0@ == kb;
        if ka != kb {
            if j < lb && i < la {
                assert(seq_lt(b[j].0@, b[lb].0@));
                assert(seq_lt(a[i].0@, a[la].0@));
                lemma_lt_trans(ka, kb, ka);
                lemma_lt_irrefl(ka);
            } else if j < lb {
                assert(i == la);
            } else {
                assert(j == lb);
            }
        }
        assert(ka == kb);
        assert(has_attr(b, kb, opt_view(b.last().1)));
        lemma_attr_map_index(b, kb, opt_view(b.last().1));
        lemma_drop_last_map(a);
        lemma_drop_last_map(b);
        lemma_sorted_unique(a.drop_last(), b.drop_last());
        assert forall|x: int| 0 <= x < a.len() implies same_attr(#[trigger] a[x], b[x]) by {
            if x < la {
                assert(a.drop_last()[x] == a[x]);
                assert(b.drop_last()[x] == b[x]);
            }
        }
    }
}

proof fn lemma_attrs_same(a: Seq<Attribute>, b: Seq<Attribute>, o: FormattingOptions, s: Seq<char>)
    requires
        a.len() == b.len(),
        forall|i: int| 0 <= i < a.len() ==> same_attr(#[trigger] a[i], b[i]),
    ensures
        attrs_text(a, o, s) == attrs_text(b, o, s),
        attrs_len(a) == attrs_len(b),
    decreases a.len(),
{
    if a.len() > 0 {
        assert(same_attr(a[a.len() - 1], b[b.len() - 1]));
        assert forall|i: int| 0 <= i < a.drop_last().len() implies same_attr(
            #[trigger] a.drop_last()[i],
            b.drop_last()[i],
        ) by {
            assert(same_attr(a[i], b[i]));
        }
        lemma_attrs_same(a.drop_last(), b.drop_last(), o, s);
        assert(value_len(a.last().1) == value_len(b.last().1));
        assert(attr_text(a.last(), o, s) == attr_text(b.last(), o, s));
    }
}

proof fn lemma_children_same(e1: Element, e2: Element, o: FormattingOptions, d: int, k: int)
    requires
        e1.children == e2.children,
    ensures
        render_children(e1, o, d, k) == render_children(e2, o, d, k),
    decreases k,
{
    if k > 0 && k <= e1.children@.len() {
        lemma_children_same(e1, e2, o, d, k - 1);
    }
}

/// Attribute order in the output does not depend on the order in which the
/// attributes were set: two well-formed elements that agree on everything
/// but the history of their attribute lists, and map each key to the same
/// value, render to the same markup.
pub proof fn lemma_attribute_order_determinism(e1: Element, e2: Element, o: FormattingOptions, d: int)
    requires
        e1.wf(),
        e2.wf(),
        e1.name@ == e2.name@,
        e1.variant == e2.variant,
        e1.classes == e2.classes,
        e1.children == e2.children,
        attr_map(e1.attributes@) == attr_map(e2.attributes@),
    ensures
        render_element(e1, o, d) == render_element(e2, o, d),
{
    lemma_sorted_unique(e1.attributes@, e2.attributes@);
    lemma_attrs_same(e1.attributes@, e2.attributes@, o, " "@);
    lemma_children_same(e1, e2, o, d, e1.children@.len() as int);
    assert(inline_len(e1, d) == inline_len(e2, d));
    assert(wrapped(e1, o, d) == wrapped(e2, o, d));
    let s = if wrapped(e1, o, d) { "\n"@ + indent(o, child_depth(d, o)) } else { " "@ };
    lemma_attrs_same(e1.attributes@, e2.attributes@, o, s);
}

/// The width boundary: an opening tag whose projected length is exactly the
/// maximum stays on one line; one column more splits it, when wrapping is on.
pub proof fn lemma_wrap_boundary(e: Element, o: FormattingOptions, d: int)
    ensures
        inline_len(e, d) <= o.max_len ==> !wrapped(e, o, d),
        inline_len(e, d) == o.max_len ==> !wrapped(e, o, d),
        inline_len(e, d) == o.max_len + 1 && o.new_lines ==> wrapped(e, o, d),
        !o.new_lines ==> !wrapped(e, o, d),
{
}

/// The event kinds that neither name an element nor add an attribute or a
/// child element to it.
pub open spec fn nameless_part(r: Rule) -> bool {
    match r {
        Rule::NodeText | Rule::ElRawTextContent | Rule::NodeComment | Rule::ElNormalEnd | Rule::ElRawTextEnd
        | Rule::ElDangling | Rule::Eoi => true,
        _ => false,
    }
}

proof fn lemma_nameless_inner(ev: Event, i: int, el: ElementV, w: Seq<Seq<char>>)
    requires
        0 <= i,
        el.name.len() == 0,
        forall|j: int| 0 <= j < ev.inner@.len() ==> nameless_part(#[trigger] ev.inner@[j].rule),
    ensures
        build_inner(ev, i, el, w).0 is Ok,
        build_inner(ev, i, el, w).0->Ok_0.name.len() == 0,
        build_inner(ev, i, el, w).1 == w,
    decreases ev.inner@.len() - i,
{
    if i < ev.inner@.len() {
        let c = ev.inner@[i];
        assert(nameless_part(c.rule));
        match c.rule {
            Rule::NodeText | Rule::ElRawTextContent => {
                lemma_nameless_inner(ev, i + 1, el, w);
                lemma_nameless_inner(ev, i + 1, ElementV { children: el.children.push(NodeV::Text(c.text@)), ..el }, w);
            },
            Rule::NodeComment => {
                lemma_nameless_inner(
                    ev,
                    i + 1,
                    ElementV { children: el.children.push(NodeV::Comment(comment_text(c))), ..el },
                    w,
                );
            },
            Rule::ElDangling | Rule::Eoi => {
                lemma_nameless_inner(ev, i + 1, el, w);
            },
            _ => {},
        }
    }
}

/// The event kinds that name an element.
pub open spec fn names_element(r: Rule) -> bool {
    match r {
        Rule::ElName | Rule::ElVoidName | Rule::ElRawTextName => true,
        _ => false,
    }
}

proof fn lemma_unnamed_inner(ev: Event, i: int, el: ElementV, w: Seq<Seq<char>>)
    requires
        0 <= i,
        el.name.len() == 0,
        forall|j: int| 0 <= j < ev.inner@.len() ==> !names_element(#[trigger] ev.inner@[j].rule),
    ensures
        build_inner(ev, i, el, w).0 is Ok ==> build_inner(ev, i, el, w).0->Ok_0.name.len() == 0,
    decreases ev.inner@.len() - i,
{
    if i < ev.inner@.len() {
        let c = ev.inner@[i];
        assert(!names_element(c.rule));
        match c.rule {
            Rule::NodeElement | Rule::ElRawText => {
                let (r, w2) = build_element(c, w);
                match r {
                    Ok(Some(n)) => lemma_unnamed_inner(ev, i + 1, ElementV { children: el.children.push(n), ..el }, w2),
                    Ok(None) => lemma_unnamed_inner(ev, i + 1, el, w2),
                    Err(m) => lemma_unnamed_inner(ev, i + 1, el, w2.push(m)),
                }
            },
            Rule::NodeText | Rule::ElRawTextContent => {
                lemma_unnamed_inner(ev, i + 1, el, w);
                lemma_unnamed_inner(ev, i + 1, ElementV { children: el.children.push(NodeV::Text(c.text@)), ..el }, w);
            },
            Rule::NodeComment => lemma_unnamed_inner(
                ev,
                i + 1,
                ElementV { children: el.children.push(NodeV::Comment(comment_text(c))), ..el },
                w,
            ),
            Rule::Attr => match attribute_of(c.inner@) {
                Ok((k, v)) => {
                    if let Some(t) = v {
                        lemma_unnamed_inner(ev, i + 1, ElementV { classes: el.classes + words(t), ..el }, w);
                    }
                    lemma_unnamed_inner(ev, i + 1, el, w);
                    lemma_unnamed_inner(ev, i + 1, ElementV { attributes: el.attributes.insert(k, v), ..el }, w);
                },
                Err(m) => lemma_unnamed_inner(ev, i + 1, el, w.push(m)),
            },
            _ => lemma_unnamed_inner(ev, i + 1, el, w),
        }
    }
}

/// An element event none of whose inner events names it produces no node,
/// whatever else it holds.
pub proof fn lemma_unnamed_element_gives_no_node(ev: Event, w: Seq<Seq<char>>)
    requires
        forall|j: int| 0 <= j < ev.inner@.len() ==> !names_element(#[trigger] ev.inner@[j].rule),
    ensures
        !(build_element(ev, w).0 matches Ok(Some(_))),
{
    lemma_unnamed_inner(ev, 0, empty_element(), w);
}

/// An element event that never receives a name, and holds no attribute or
/// nested element, produces no node and no warning.
pub proof fn lemma_dangling_element_dropped(ev: Event, w: Seq<Seq<char>>)
    requires
        forall|j: int| 0 <= j < ev.inner@.len() ==> nameless_part(#[trigger] ev.inner@[j].rule),
    ensures
        build_element(ev, w) == (Ok::<Option<NodeV>, Seq<char>>(None), w),
{
    lemma_nameless_inner(ev, 0, empty_element(), w);
}

/// The comment nodes of the comment events `evs[i..]`, in order.
pub open spec fn comment_nodes(evs: Seq<Event>, i: int) -> Seq<NodeV> {
    Seq::new((evs.len() - i) as nat, |j: int| NodeV::Comment(comment_text(evs[i + j])))
}

proof fn lemma_comments_from(evs: Seq<Event>, i: int, ch: Seq<NodeV>, w: Seq<Seq<char>>)
    requires
        0 <= i <= evs.len(),
        forall|j: int| 0 <= j < evs.len() ==> (#[trigger] evs[j]).rule == Rule::NodeComment,
    ensures
        dom_from(evs, i, DomVariant::Empty, ch, w) == (DomVariant::Empty, ch + comment_nodes(evs, i), w),
    decreases evs.len() - i,
{
    if i < evs.len() {
        let c = NodeV::Comment(comment_text(evs[i]));
        lemma_comments_from(evs, i + 1, ch.push(c), w);
        assert(ch.push(c) + comment_nodes(evs, i + 1) =~= ch + comment_nodes(evs, i));
    } else {
        assert(ch + comment_nodes(evs, i) =~= ch);
    }
}

/// Input of comments only is a fragment that holds those comments in order,
/// with no warning.
pub proof fn lemma_comment_only_input(evs: Seq<Event>)
    requires
        evs.len() > 0,
        forall|j: int| 0 <= j < evs.len() ==> (#[trigger] evs[j]).rule == Rule::NodeComment,
    ensures
        parse_spec(evs) == Ok::<(DomVariant, Seq<NodeV>, Seq<Seq<char>>), Seq<char>>(
            (DomVariant::DocumentFragment, comment_nodes(evs, 0), Seq::empty()),
        ),
{
    lemma_comments_from(evs, 0, Seq::empty(), Seq::empty());
    assert(Seq::<NodeV>::empty() + comment_nodes(evs, 0) =~= comment_nodes(evs, 0));
}

proof fn lemma_end_only_from(evs: Seq<Event>, i: int)
    requires
        0 <= i <= evs.len(),
        forall|j: int| 0 <= j < evs.len() ==> (#[trigger] evs[j]).rule == Rule::Eoi,
    ensures
        dom_from(evs, i, DomVariant::Empty, Seq::empty(), Seq::empty()) == (
            DomVariant::Empty,
            Seq::<NodeV>::empty(),
            Seq::<Seq<char>>::empty(),
        ),
    decreases evs.len() - i,
{
    if i < evs.len() {
        lemma_end_only_from(evs, i + 1);
    }
}

/// Empty input, which holds at most the end of input, is an empty tree.
pub proof fn lemma_empty_input(evs: Seq<Event>)
    requires
        forall|j: int| 0 <= j < evs.len() ==> (#[trigger] evs[j]).rule == Rule::Eoi,
    ensures
        parse_spec(evs) == Ok::<(DomVariant, Seq<NodeV>, Seq<Seq<char>>), Seq<char>>(
            (DomVariant::Empty, Seq::empty(), Seq::empty()),
        ),
{
    lemma_end_only_from(evs, 0);
}

} // verus!
