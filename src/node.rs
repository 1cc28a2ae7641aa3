use crate::element::{Element, ElementVariant, attr_map};
use vstd::prelude::*;

verus! {

broadcast use vstd::std_specs::vec::axiom_vec_decreases_to_view, vstd::seq::axiom_seq_index_decreases;

/// A node of the tree: an element, a text or a comment.
#[derive(Debug, PartialEq, Eq)]
pub enum Node {
    Element(Element),
    Text(String),
    Comment(String),
}

/// The mathematical value of an element: its name, variant, attribute map,
/// classes and children.
pub ghost struct ElementV {
    pub name: Seq<char>,
    pub variant: ElementVariant,
    pub attributes: Map<Seq<char>, Option<Seq<char>>>,
    pub classes: Seq<Seq<char>>,
    pub children: Seq<NodeV>,
}

/// The mathematical value of a node.
pub ghost enum NodeV {
    Element(ElementV),
    Text(Seq<char>),
    Comment(Seq<char>),
}

impl Node {
    /// The text of a text node.
    pub fn text(&self) -> (r: Option<&str>)
        ensures
            match *self {
                Node::Text(t) => r is Some && r->0@ == t@,
                _ => r is None,
            },
    {
        match self {
            Node::Text(t) => Some(t.as_str()),
            _ => None,
        }
    }

    /// The element of an element node.
    pub fn element(&self) -> (r: Option<&Element>)
        ensures
            match *self {
                Node::Element(e) => r == Some(&e),
                _ => r is None,
            },
    {
        match self {
            Node::Element(e) => Some(e),
            _ => None,
        }
    }

    /// The content of a comment node.
    pub fn comment(&self) -> (r: Option<&str>)
        ensures
            match *self {
                Node::Comment(t) => r is Some && r->0@ == t@,
                _ => r is None,
            },
    {
        match self {
            Node::Comment(t) => Some(t.as_str()),
            _ => None,
        }
    }

    /// A new text node.
    pub fn new_text(text: &str) -> (r: Self)
        ensures
            node_view(r) == NodeV::Text(text@),
    {
        Node::Text(text.to_string())
    }

    /// A new comment node.
    pub fn new_comment(comment: &str) -> (r: Self)
        ensures
            node_view(r) == NodeV::Comment(comment@),
    {
        Node::Comment(comment.to_string())
    }
}

pub open spec fn node_view(n: Node) -> NodeV
    decreases n,
{
    match n {
        Node::Element(e) => NodeV::Element(element_view(e)),
        Node::Text(t) => NodeV::Text(t@),
        Node::Comment(c) => NodeV::Comment(c@),
    }
}

pub open spec fn element_view(e: Element) -> ElementV
    decreases e,
{
    ElementV {
        name: e.name@,
        variant: e.variant,
        attributes: attr_map(e.attributes@),
        classes: e.classes@.map_values(|c: String| c@),
        children: Seq::new(
            e.children@.len(),
            |i: int|
                if 0 <= i < e.children@.len() {
                    node_view(e.children@[i])
                } else {
                    NodeV::Text(Seq::empty())
                },
        ),
    }
}

} // verus!
