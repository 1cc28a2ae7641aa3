//! Pre-order traversal of a node's descendants with an explicit stack.
use crate::element::Element;
use crate::node::Node;
use vstd::prelude::*;

verus! {

broadcast use vstd::std_specs::vec::axiom_vec_decreases_to_view, vstd::seq::axiom_seq_index_decreases;

/// The descendants of `n` in pre-order: parents before children, children
/// in order; `n` itself is not among them.
pub open spec fn descendants(n: Node) -> Seq<Node>
    decreases n, 0int,
{
    match n {
        Node::Element(e) => forest_from(e, 0),
        _ => Seq::empty(),
    }
}

/// The children of `e` from index `k` on, each followed by its descendants.
pub open spec fn forest_from(e: Element, k: int) -> Seq<Node>
    decreases e, e.children@.len() - k,
{
    if k < 0 || k >= e.children@.len() {
        Seq::empty()
    } else {
        seq![e.children@[k]] + descendants(e.children@[k]) + forest_from(e, k + 1)
    }
}

/// The siblings after index `k` of node `p`'s children, with their descendants.
pub open spec fn siblings_after(p: Node, k: int) -> Seq<Node> {
    match p {
        Node::Element(e) => forest_from(e, k + 1),
        _ => Seq::empty(),
    }
}

/// What the frames of the stack still hold, top frame first.
pub open spec fn pending(stack: Seq<(usize, &Node)>) -> Seq<Node>
    decreases stack.len(),
{
    if stack.len() == 0 {
        Seq::empty()
    } else {
        siblings_after(*stack.last().1, stack.last().0 as int) + pending(stack.drop_last())
    }
}

/// A non-recursive pre-order walk over the descendants of a node.
pub struct NodeIntoIterator<'a> {
    node: &'a Node,
    index: Vec<(usize, &'a Node)>,
}

impl<'a> NodeIntoIterator<'a> {
    /// The nodes that the walk has still to visit, in order.
    pub closed spec fn remaining(&self) -> Seq<Node> {
        descendants(*self.node) + pending(self.index@)
    }

    /// The next node of the walk, or `None` when it is over.
    pub fn next(&mut self) -> (r: Option<&'a Node>)
        ensures
            match r {
                Some(n) => old(self).remaining() == seq![*n] + final(self).remaining(),
                None => old(self).remaining().len() == 0 && final(self).remaining().len() == 0,
            },
    {
        let first = match self.node {
            Node::Element(e) => {
                if e.children.len() > 0 {
                    Some(&e.children[0])
                } else {
                    None
                }
            },
            _ => None,
        };
        match first {
            Some(child) => {
                proof {
                    let e = self.node->Element_0;
                    assert(descendants(*self.node) == forest_from(e, 0));
                }
                let parent = self.node;
                self.index.push((0, parent));
                self.node = child;
                proof {
                    let e = parent->Element_0;
                    assert(self.index@.drop_last() == old(self).index@);
                    assert(old(self).remaining() =~= seq![*child] + self.remaining());
                }
                Some(child)
            },
            None => {
                proof {
                    assert(descendants(*self.node) =~= Seq::<Node>::empty());
                }
                while self.index.len() > 0
                    invariant
                        descendants(*self.node) == Seq::<Node>::empty(),
                        old(self).remaining() == pending(self.index@),
                    decreases self.index@.len(),
                {
                    let ghost st = self.index@;
                    let (i, parent) = self.index.pop().unwrap();
                    proof {
                        assert(st.drop_last() == self.index@);
                    }
                    let sibling = match parent {
                        Node::Element(e) => {
                            if e.children.len() > 0 && i < e.children.len() - 1 {
                                Some(&e.children[i + 1])
                            } else {
                                None
                            }
                        },
                        _ => None,
                    };
                    match sibling {
                        Some(s) => {
                            self.index.push((i + 1, parent));
                            self.node = s;
                            proof {
                                let e = parent->Element_0;
                                assert(self.index@.drop_last() == st.drop_last());
                                assert(old(self).remaining() =~= seq![*s] + self.remaining());
                            }
                            return Some(s);
                        },
                        None => {},
                    }
                }
                proof {
                    assert(self.remaining() =~= Seq::<Node>::empty());
                }
                None
            },
        }
    }
}

impl Node {
    /// A walk over the descendants of this node, in pre-order.
    pub fn iter(&self) -> (r: NodeIntoIterator<'_>)
        ensures
            r.remaining() == descendants(*self),
    {
        let r = NodeIntoIterator { node: self, index: Vec::new() };
        proof {
            assert(r.remaining() =~= descendants(*self));
        }
        r
    }

    /// The descendants of this node in pre-order, each once.
    pub fn descendants(&self) -> (r: Vec<&Node>)
        ensures
            r@.map_values(|n: &Node| *n) == descendants(*self),
    {
        let mut it = self.iter();
        let mut out: Vec<&Node> = Vec::new();
        proof {
            assert(out@.map_values(|n: &Node| *n) + it.remaining() =~= descendants(*self));
        }
        loop
            invariant
                out@.map_values(|n: &Node| *n) + it.remaining() == descendants(*self),
            ensures
                out@.map_values(|n: &Node| *n) == descendants(*self),
            decreases it.remaining().len(),
        {
            let ghost before = it.remaining();
            match it.next() {
                Some(n) => {
                    let ghost prev = out@;
                    out.push(n);
                    proof {
                        assert(out@.map_values(|n: &Node| *n) =~= prev.map_values(|n: &Node| *n).push(*n));
                        assert(out@.map_values(|n: &Node| *n) + it.remaining() =~= prev.map_values(
                            |n: &Node| *n,
                        ) + before);
                    }
                },
                None => {
                    proof {
                        assert(out@.map_values(|n: &Node| *n) =~= descendants(*self));
                    }
                    break;
                },
            }
        }
        out
    }
}

} // verus!
