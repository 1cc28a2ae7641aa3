//! The tree builder: from parse events to nodes.
use crate::element::{attr_map, node_wf, opt_view, Element, ElementVariant};
use crate::dom::{nodes_from, nodes_view, top_level_ok};
use crate::error::Error;
use crate::event::{comment_text, rule_name, Event, Rule};
use crate::node::{element_view, node_view, ElementV, Node, NodeV};
use crate::span::SourceSpan;
use crate::text::{all_ws, is_blank, split_words, trim, trimmed, words};
use vstd::prelude::*;

verus! {

broadcast use vstd::std_specs::vec::axiom_vec_decreases_to_view, vstd::seq::axiom_seq_index_decreases;

/// The views of a sequence of strings.
pub open spec fn strs_view(s: Seq<String>) -> Seq<Seq<char>> {
    s.map_values(|x: String| x@)
}

/// An attribute's key and optional value.
pub type AttrV = (Seq<char>, Option<Seq<char>>);

/// The attribute decoded from the inner events `evs[i..]` of an attribute
/// event, where `acc` is what the events before `i` gave.
pub open spec fn attribute_from(evs: Seq<Event>, i: int, acc: AttrV) -> Result<AttrV, Seq<char>>
    decreases evs.len() - i,
{
    if i < 0 || i >= evs.len() {
        Ok(acc)
    } else {
        let e = evs[i];
        match e.rule {
            Rule::AttrKey => attribute_from(evs, i + 1, (trim(e.text@), acc.1)),
            Rule::AttrNonQuoted => attribute_from(evs, i + 1, (acc.0, Some(trim(e.text@)))),
            Rule::AttrQuoted => {
                if e.inner@.len() == 1 && e.inner@[0].rule == Rule::AttrValue {
                    attribute_from(evs, i + 1, (acc.0, Some(e.inner@[0].text@)))
                } else if e.inner@.len() == 1 {
                    Err("Failed to parse attr value: "@ + rule_name(e.inner@[0].rule))
                } else {
                    Err("Failed to parse attr value: missing value"@)
                }
            },
            _ => Err("Failed to parse attr: "@ + rule_name(e.rule)),
        }
    }
}

/// The attribute decoded from the inner events of an attribute event: a
/// missing key is the empty key, a missing value a bare attribute.
pub open spec fn attribute_of(evs: Seq<Event>) -> Result<AttrV, Seq<char>> {
    attribute_from(evs, 0, (Seq::empty(), None))
}

/// An element with no name, no attributes, classes or children, of the void variant.
pub open spec fn empty_element() -> ElementV {
    ElementV {
        name: Seq::empty(),
        variant: ElementVariant::Void,
        attributes: Map::empty(),
        classes: Seq::empty(),
        children: Seq::empty(),
    }
}

/// The node that an element event gives (`None` where it never got a name),
/// or the error that aborted it; and the warnings `w` followed by those
/// collected on the way.
pub open spec fn build_element(ev: Event, w: Seq<Seq<char>>) -> (
    Result<Option<NodeV>, Seq<char>>,
    Seq<Seq<char>>,
)
    decreases ev, ev.inner@.len() + 1,
{
    let (r, w2) = build_inner(ev, 0, empty_element(), w);
    match r {
        Ok(el) => (Ok(if el.name.len() == 0 { None } else { Some(NodeV::Element(el)) }), w2),
        Err(m) => (Err(m), w2),
    }
}

/// The element `el` after the inner events `ev.inner[i..]` of element event `ev`.
pub open spec fn build_inner(ev: Event, i: int, el: ElementV, w: Seq<Seq<char>>) -> (
    Result<ElementV, Seq<char>>,
    Seq<Seq<char>>,
)
    decreases ev, ev.inner@.len() - i,
{
    if i < 0 || i >= ev.inner@.len() {
        (Ok(el), w)
    } else {
        let c = ev.inner@[i];
        match c.rule {
            Rule::NodeElement | Rule::ElRawText => {
                let (r, w2) = build_element(c, w);
                match r {
                    Ok(Some(n)) => build_inner(ev, i + 1, ElementV { children: el.children.push(n), ..el }, w2),
                    Ok(None) => build_inner(ev, i + 1, el, w2),
                    Err(m) => build_inner(ev, i + 1, el, w2.push(m)),
                }
            },
            Rule::NodeText | Rule::ElRawTextContent => {
                if all_ws(c.text@) {
                    build_inner(ev, i + 1, el, w)
                } else {
                    build_inner(ev, i + 1, ElementV { children: el.children.push(NodeV::Text(c.text@)), ..el }, w)
                }
            },
            Rule::NodeComment => build_inner(
                ev,
                i + 1,
                ElementV { children: el.children.push(NodeV::Comment(comment_text(c))), ..el },
                w,
            ),
            Rule::ElName | Rule::ElVoidName | Rule::ElRawTextName => build_inner(
                ev,
                i + 1,
                ElementV { name: c.text@, ..el },
                w,
            ),
            Rule::Attr => match attribute_of(c.inner@) {
                Ok((k, v)) => {
                    if k == "class"@ {
                        match v {
                            Some(s) => build_inner(ev, i + 1, ElementV { classes: el.classes + words(s), ..el }, w),
                            None => build_inner(ev, i + 1, el, w),
                        }
                    } else {
                        build_inner(ev, i + 1, ElementV { attributes: el.attributes.insert(k, v), ..el }, w)
                    }
                },
                Err(m) => build_inner(ev, i + 1, el, w.push(m)),
            },
            Rule::ElNormalEnd | Rule::ElRawTextEnd => (Ok(ElementV { variant: ElementVariant::Normal, ..el }), w),
            Rule::ElDangling | Rule::Eoi => build_inner(ev, i + 1, el, w),
            _ => (Err("Failed to create element at rule: "@ + rule_name(c.rule)), w),
        }
    }
}

pub open spec fn result_view(r: Result<Option<Node>, Error>) -> Result<Option<NodeV>, Seq<char>> {
    match r {
        Ok(Some(n)) => Ok(Some(node_view(n))),
        Ok(None) => Ok(None),
        Err(e) => Err(e.msg()),
    }
}

/// Decodes the inner events of an attribute event into a key and an optional value.
pub fn build_attribute(evs: &Vec<Event>) -> (r: Result<(String, Option<String>), Error>)
    ensures
        match (r, attribute_of(evs@)) {
            (Ok((k, v)), Ok((k2, v2))) => k@ == k2 && opt_view(v) == v2,
            (Err(e), Err(m)) => e.msg() == m,
            _ => false,
        },
{
    let mut key = String::new();
    let mut value: Option<String> = None;
    let mut i: usize = 0;
    while i < evs.len()
        invariant
            i <= evs@.len(),
            attribute_of(evs@) == attribute_from(evs@, i as int, (key@, opt_view(value))),
        decreases evs@.len() - i,
    {
        let e = &evs[i];
        match e.rule {
            Rule::AttrKey => {
                key = trimmed(e.text.as_str());
            },
            Rule::AttrNonQuoted => {
                value = Some(trimmed(e.text.as_str()));
            },
            Rule::AttrQuoted => {
                if e.inner.len() == 1 {
                    let v = &e.inner[0];
                    match v.rule {
                        Rule::AttrValue => {
                            value = Some(v.text.clone());
                        },
                        _ => {
                            let m = String::from_str("Failed to parse attr value: ").concat(v.rule.name());
                            return Err(Error::Parsing(m));
                        },
                    }
                } else {
                    return Err(Error::Parsing(String::from_str("Failed to parse attr value: missing value")));
                }
            },
            _ => {
                let m = String::from_str("Failed to parse attr: ").concat(e.rule.name());
                return Err(Error::Parsing(m));
            },
        }
        i = i + 1;
    }
    Ok((key, value))
}

pub proof fn lemma_view_push_child(a: Element, b: Element, n: Node)
    requires
        b.children@ == a.children@.push(n),
    ensures
        element_view(b).children == element_view(a).children.push(node_view(n)),
{
    assert(element_view(b).children =~= element_view(a).children.push(node_view(n)));
}

pub proof fn lemma_view_same_children(a: Element, b: Element)
    requires
        b.children@ == a.children@,
    ensures
        element_view(b).children == element_view(a).children,
{
    assert(element_view(b).children =~= element_view(a).children);
}

impl Node {
    /// The root nodes of a stream of top-level events: what a tree would hold,
    /// without classification or validation, and with dropped parts left out
    /// silently.
    pub fn parse(events: &Vec<Event>) -> (r: Result<Vec<Node>, Error>)
        requires
            top_level_ok(events@),
        ensures
            r is Ok,
            r matches Ok(v) ==> nodes_view(v@) == nodes_from(events@, 0, Seq::empty()),
            r matches Ok(v) ==> forall|i: int| 0 <= i < v@.len() ==> #[trigger] node_wf(v@[i]),
    {
        Ok(Self::build_nodes(events))
    }

    fn build_nodes(events: &Vec<Event>) -> (r: Vec<Node>)
        ensures
            nodes_view(r@) == nodes_from(events@, 0, Seq::empty()),
            forall|i: int| 0 <= i < r@.len() ==> #[trigger] node_wf(r@[i]),
    {
        let mut nodes: Vec<Node> = Vec::new();
        let n = events.len();
        let mut i: usize = 0;
        proof {
            assert(nodes_view(nodes@) =~= Seq::<NodeV>::empty());
        }
        while i < n
            invariant
                n == events@.len(),
                i <= n,
                forall|j: int| 0 <= j < nodes@.len() ==> #[trigger] node_wf(nodes@[j]),
                nodes_from(events@, 0, Seq::empty()) == nodes_from(events@, i as int, nodes_view(nodes@)),
            decreases n - i,
        {
            let e = &events[i];
            let ghost cb = nodes@;
            match e.rule {
                Rule::NodeElement => {
                    let mut ignored: Vec<String> = Vec::new();
                    proof {
                        assert(strs_view(ignored@) =~= Seq::<Seq<char>>::empty());
                    }
                    match Self::build_node_element(e, &mut ignored) {
                        Ok(Some(node)) => {
                            nodes.push(node);
                            proof {
                                assert(nodes_view(nodes@) =~= nodes_view(cb).push(node_view(node)));
                            }
                        },
                        _ => {},
                    }
                },
                Rule::NodeText => {
                    if !is_blank(e.text.as_str()) {
                        nodes.push(Node::Text(e.text.clone()));
                        proof {
                            assert(nodes_view(nodes@) =~= nodes_view(cb).push(NodeV::Text(e.text@)));
                        }
                    }
                },
                Rule::NodeComment => {
                    let t = e.comment_content();
                    nodes.push(Node::Comment(t));
                    proof {
                        assert(nodes_view(nodes@) =~= nodes_view(cb).push(NodeV::Comment(t@)));
                    }
                },
                _ => {},
            }
            i = i + 1;
        }
        nodes
    }

    /// Builds the node of an element event, collecting warnings for the
    /// parts that had to be dropped.
    pub(crate) fn build_node_element(ev: &Event, warnings: &mut Vec<String>) -> (r: Result<Option<Node>, Error>)
        ensures
            (result_view(r), strs_view(final(warnings)@)) == build_element(*ev, strs_view(old(warnings)@)),
            match r {
                Ok(Some(n)) => node_wf(n) && n is Element,
                _ => true,
            },
        decreases ev,
    {
        let mut element = Element {
            name: String::new(),
            variant: ElementVariant::Void,
            attributes: Vec::new(),
            classes: Vec::new(),
            children: Vec::new(),
            source_span: SourceSpan::new(
                ev.text.clone(),
                ev.start_line,
                ev.end_line,
                ev.start_column,
                ev.end_column,
            ),
        };
        let ghost w0 = strs_view(warnings@);
        proof {
            assert(element_view(element).children =~= Seq::<NodeV>::empty());
            assert(strs_view(element.classes@) =~= Seq::<Seq<char>>::empty());
            assert(attr_map(element.attributes@) =~= Map::<Seq<char>, Option<Seq<char>>>::empty());
            assert(element_view(element) == empty_element());
        }
        let n = ev.inner.len();
        let mut i: usize = 0;
        let mut stop = false;
        while i < n && !stop
            invariant
                n == ev.inner@.len(),
                i <= n,
                w0 == strs_view(old(warnings)@),
                element.wf(),
                stop ==> build_inner(*ev, 0, empty_element(), w0) == (
                    Ok::<ElementV, Seq<char>>(element_view(element)),
                    strs_view(warnings@),
                ),
                !stop ==> build_inner(*ev, 0, empty_element(), w0) == build_inner(
                    *ev,
                    i as int,
                    element_view(element),
                    strs_view(warnings@),
                ),
            decreases n - i,
        {
            let c = &ev.inner[i];
            let ghost before = element;
            let ghost wb = strs_view(warnings@);
            match c.rule {
                Rule::NodeElement | Rule::ElRawText => {
                    match Self::build_node_element(c, warnings) {
                        Ok(Some(node)) => {
                            element.children.push(node);
                            proof {
                                lemma_view_push_child(before, element, node);
                            }
                        },
                        Ok(None) => {},
                        Err(e) => {
                            let ghost wm = strs_view(warnings@);
                            warnings.push(e.message());
                            proof {
                                assert(strs_view(warnings@) =~= wm.push(e.msg()));
                            }
                        },
                    }
                },
                Rule::NodeText | Rule::ElRawTextContent => {
                    if !is_blank(c.text.as_str()) {
                        element.children.push(Node::Text(c.text.clone()));
                        proof {
                            lemma_view_push_child(before, element, Node::Text(c.text));
                        }
                    }
                },
                Rule::NodeComment => {
                    let t = c.comment_content();
                    element.children.push(Node::Comment(t));
                    proof {
                        lemma_view_push_child(before, element, Node::Comment(t));
                    }
                },
                Rule::ElName | Rule::ElVoidName | Rule::ElRawTextName => {
                    element.name = c.text.clone();
                    proof {
                        lemma_view_same_children(before, element);
                    }
                },
                Rule::Attr => {
                    match build_attribute(&c.inner) {
                        Ok((k, v)) => {
                            let class_key = String::from_str("class");
                            if k == class_key {
                                match v {
                                    Some(s) => {
                                        let mut ws = split_words(s.as_str());
                                        element.classes.append(&mut ws);
                                        proof {
                                            assert(strs_view(element.classes@) =~= strs_view(before.classes@)
                                                + words(s@));
                                            lemma_view_same_children(before, element);
                                        }
                                    },
                                    None => {},
                                }
                            } else {
                                element.insert_attribute(k, v);
                                proof {
                                    lemma_view_same_children(before, element);
                                }
                            }
                        },
                        Err(e) => {
                            warnings.push(e.message());
                            proof {
                                assert(strs_view(warnings@) =~= wb.push(e.msg()));
                            }
                        },
                    }
                },
                Rule::ElNormalEnd | Rule::ElRawTextEnd => {
                    element.variant = ElementVariant::Normal;
                    stop = true;
                    proof {
                        lemma_view_same_children(before, element);
                    }
                },
                Rule::ElDangling | Rule::Eoi => {},
                _ => {
                    let m = String::from_str("Failed to create element at rule: ").concat(c.rule.name());
                    let r = Err(Error::Parsing(m));
                    assert(build_inner(*ev, i as int, element_view(element), wb) == (
                        Err::<ElementV, Seq<char>>("Failed to create element at rule: "@ + rule_name(c.rule)), wb));
                    assert(result_view(r) == Err::<Option<NodeV>, Seq<char>>(m@));
                    return r;
                },
            }
            i = i + 1;
        }
        if element.name.as_str().is_empty() {
            Ok(None)
        } else {
            Ok(Some(Node::Element(element)))
        }
    }
}

} // verus!
