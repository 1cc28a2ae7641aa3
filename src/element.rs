use crate::node::Node;
use crate::order::{lemma_lt_irrefl, lemma_lt_total, lemma_lt_trans, seq_lt, str_less};
use crate::span::SourceSpan;
use vstd::prelude::*;

verus! {

/// Normal: `<div></div>`; Void: `<meta/>` and `<meta>`.
#[derive(Debug, Clone, Copy, PartialEq, Eq, Structural)]
pub enum ElementVariant {
    /// A normal element can have children, ex: `<div></div>`.
    Normal,
    /// A void element can't have children, ex: `<meta />` and `<meta>`.
    Void,
}

/// An attribute: its key and its value, `None` for a bare attribute.
pub type Attribute = (String, Option<String>);

pub open spec fn opt_view(o: Option<String>) -> Option<Seq<char>> {
    match o {
        Some(s) => Some(s@),
        None => None,
    }
}

/// The attributes' keys are strictly increasing, hence unique.
pub open spec fn keys_sorted(s: Seq<Attribute>) -> bool {
    forall|i: int, j: int| 0 <= i < j < s.len() ==> seq_lt(#[trigger] s[i].0@, #[trigger] s[j].0@)
}

/// The attribute list maps key `k` to value `v`.
pub open spec fn has_attr(s: Seq<Attribute>, k: Seq<char>, v: Option<Seq<char>>) -> bool {
    exists|i: int| 0 <= i < s.len() && #[trigger] s[i].0@ == k && opt_view(s[i].1) == v
}

/// The attribute list as a map from key to value.
pub open spec fn attr_map(s: Seq<Attribute>) -> Map<Seq<char>, Option<Seq<char>>> {
    Map::new(|k: Seq<char>| has_key(s, k), |k: Seq<char>| choose|v: Option<Seq<char>>| has_attr(s, k, v))
}

pub proof fn lemma_attr_map_index(s: Seq<Attribute>, k: Seq<char>, v: Option<Seq<char>>)
    requires
        keys_sorted(s),
        has_attr(s, k, v),
    ensures
        attr_map(s).contains_key(k),
        attr_map(s)[k] == v,
{
    let i = choose|i: int| 0 <= i < s.len() && #[trigger] s[i].0@ == k && opt_view(s[i].1) == v;
    assert(has_key(s, k));
    let w = choose|w: Option<Seq<char>>| has_attr(s, k, w);
    let j = choose|j: int| 0 <= j < s.len() && #[trigger] s[j].0@ == k && opt_view(s[j].1) == w;
    if i < j {
        assert(seq_lt(s[i].0@, s[j].0@));
        lemma_lt_irrefl(k);
    } else if j < i {
        assert(seq_lt(s[j].0@, s[i].0@));
        lemma_lt_irrefl(k);
    }
}

/// The map of an attribute list, given what it maps each key to.
pub proof fn lemma_attr_map_eq(s: Seq<Attribute>, m: Map<Seq<char>, Option<Seq<char>>>)
    requires
        keys_sorted(s),
        forall|k: Seq<char>, v: Option<Seq<char>>| #[trigger]
            has_attr(s, k, v) == (m.contains_key(k) && m[k] == v),
    ensures
        attr_map(s) == m,
{
    assert forall|k: Seq<char>| #[trigger] attr_map(s).contains_key(k) == m.contains_key(k) by {
        if m.contains_key(k) {
            assert(has_attr(s, k, m[k]));
            lemma_attr_map_index(s, k, m[k]);
        }
        if has_key(s, k) {
            let i = choose|i: int| 0 <= i < s.len() && #[trigger] s[i].0@ == k;
            assert(has_attr(s, k, opt_view(s[i].1)));
        }
    }
    assert forall|k: Seq<char>| m.contains_key(k) implies #[trigger] attr_map(s)[k] == m[k] by {
        assert(has_attr(s, k, m[k]));
        lemma_attr_map_index(s, k, m[k]);
    }
    assert(attr_map(s) =~= m);
}

/// The attribute list has an entry for key `k`.
pub open spec fn has_key(s: Seq<Attribute>, k: Seq<char>) -> bool {
    exists|i: int| 0 <= i < s.len() && #[trigger] s[i].0@ == k
}

/// Most of the parsed html nodes are elements, except for text and comments.
#[derive(Debug, PartialEq, Eq)]
pub struct Element {
    /// The name / tag of the element
    pub name: String,
    /// The element variant, void or normal
    pub variant: ElementVariant,
    /// The element's attributes other than `class`, ordered by key
    pub attributes: Vec<Attribute>,
    /// The element's classes, in source order
    pub classes: Vec<String>,
    /// The element's child nodes
    pub children: Vec<Node>,
    /// Span of the element in the parsed source
    pub source_span: SourceSpan,
}

impl Element {
    /// Well-formed: in this element and every element below it, the
    /// attribute keys are strictly increasing.
    pub open spec fn wf(self) -> bool
        decreases self,
    {
        &&& keys_sorted(self.attributes@)
        &&& forall|i: int| 0 <= i < self.children@.len() ==> #[trigger] node_wf(self.children@[i])
    }

    /// Sets attribute `key` to `value`, replacing an earlier value of the same key.
    pub fn insert_attribute(&mut self, key: String, value: Option<String>)
        requires
            keys_sorted(old(self).attributes@),
        ensures
            keys_sorted(final(self).attributes@),
            forall|k: Seq<char>, v: Option<Seq<char>>|
                #[trigger] has_attr(final(self).attributes@, k, v) == if k == key@ {
                    v == opt_view(value)
                } else {
                    has_attr(old(self).attributes@, k, v)
                },
            attr_map(final(self).attributes@) == attr_map(old(self).attributes@).insert(
                key@,
                opt_view(value),
            ),
            final(self).name == old(self).name,
            final(self).variant == old(self).variant,
            final(self).classes == old(self).classes,
            final(self).children == old(self).children,
            final(self).source_span == old(self).source_span,
    {
        let n = self.attributes.len();
        let mut p: usize = 0;
        while p < n && str_less(self.attributes[p].0.as_str(), key.as_str())
            invariant
                n == self.attributes@.len(),
                p <= n,
                forall|j: int| 0 <= j < p ==> seq_lt(#[trigger] self.attributes@[j].0@, key@),
            decreases n - p,
        {
            p = p + 1;
        }
        let ghost s = self.attributes@;
        let ghost kv = key@;
        let ghost vv = opt_view(value);
        if p < n && self.attributes[p].0 == key {
            let k2 = key;
            self.attributes.set(p, (k2, value));
            proof {
                let t = self.attributes@;
                assert(forall|j: int| 0 <= j < t.len() && j != p ==> t[j] == s[j]);
                assert(t[p as int].0@ == s[p as int].0@);
                assert forall|k: Seq<char>, v: Option<Seq<char>>| #[trigger]
                    has_attr(t, k, v) == if k == kv {
                        v == vv
                    } else {
                        has_attr(s, k, v)
                    } by {
                    if k == kv {
                        if has_attr(t, k, v) {
                            let i = choose|i: int| 0 <= i < t.len() && #[trigger] t[i].0@ == k && opt_view(t[i].1) == v;
                            if i != p {
                                if i < p {
                                    assert(seq_lt(t[i].0@, t[p as int].0@));
                                } else {
                                    assert(seq_lt(t[p as int].0@, t[i].0@));
                                }
                                lemma_lt_irrefl(kv);
                            }
                        }
                        if v == vv {
                            assert(t[p as int].0@ == k);
                        }
                    } else {
                        if has_attr(t, k, v) {
                            let i = choose|i: int| 0 <= i < t.len() && #[trigger] t[i].0@ == k && opt_view(t[i].1) == v;
                            assert(s[i].0@ == k);
                        }
                        if has_attr(s, k, v) {
                            let i = choose|i: int| 0 <= i < s.len() && #[trigger] s[i].0@ == k && opt_view(s[i].1) == v;
                            assert(t[i].0@ == k);
                        }
                    }
                }
            }
        } else {
            proof {
                if p < n {
                    lemma_lt_total(s[p as int].0@, kv);
                }
            }
            self.attributes.insert(p, (key, value));
            proof {
                let t = self.attributes@;
                assert(forall|j: int| 0 <= j < p ==> t[j] == s[j]);
                assert(forall|j: int| p < j < t.len() ==> t[j] == s[j - 1]);
                assert(t[p as int].0@ == kv);
                assert forall|i: int, j: int| 0 <= i < j < t.len() implies seq_lt(
                    #[trigger] t[i].0@,
                    #[trigger] t[j].0@,
                ) by {
                    if j == p {
                    } else if i == p {
                        if j - 1 > p {
                            lemma_lt_trans(kv, s[p as int].0@, s[j - 1].0@);
                        }
                    } else if i < p && j > p {
                        if j - 1 > p {
                            lemma_lt_trans(kv, s[p as int].0@, s[j - 1].0@);
                        }
                        lemma_lt_trans(s[i].0@, kv, s[j - 1].0@);
                    } else if i > p {
                        assert(seq_lt(s[i - 1].0@, s[j - 1].0@));
                    }
                }
                assert forall|k: Seq<char>, v: Option<Seq<char>>| #[trigger]
                    has_attr(t, k, v) == if k == kv {
                        v == vv
                    } else {
                        has_attr(s, k, v)
                    } by {
                    if has_attr(t, k, v) {
                        let i = choose|i: int| 0 <= i < t.len() && #[trigger] t[i].0@ == k && opt_view(t[i].1) == v;
                        if k == kv && i != p {
                            assert(seq_lt(t[i].0@, t[p as int].0@) || seq_lt(t[p as int].0@, t[i].0@));
                            lemma_lt_irrefl(kv);
                        }
                        if i < p {
                            assert(s[i].0@ == k);
                        } else if i > p {
                            assert(s[i - 1].0@ == k);
                        }
                    }
                    if k == kv && v == vv {
                        assert(t[p as int].0@ == k);
                    }
                    if k != kv && has_attr(s, k, v) {
                        let i = choose|i: int| 0 <= i < s.len() && #[trigger] s[i].0@ == k && opt_view(s[i].1) == v;
                        if i < p {
                            assert(t[i].0@ == k);
                        } else {
                            assert(t[i + 1].0@ == k);
                        }
                    }
                }
            }
        }
        proof {
            let m = attr_map(old(self).attributes@).insert(key@, opt_view(value));
            assert forall|k: Seq<char>, v: Option<Seq<char>>| #[trigger]
                has_attr(self.attributes@, k, v) == (m.contains_key(k) && m[k] == v) by {
                if k != key@ {
                    if has_attr(old(self).attributes@, k, v) {
                        lemma_attr_map_index(old(self).attributes@, k, v);
                    }
                    if attr_map(old(self).attributes@).contains_key(k) {
                        let i = choose|i: int| 0 <= i < old(self).attributes@.len() && #[trigger] old(self).attributes@[i].0@ == k;
                        lemma_attr_map_index(old(self).attributes@, k, opt_view(old(self).attributes@[i].1));
                    }
                }
            }
            lemma_attr_map_eq(self.attributes@, m);
        }
    }
}

/// Well-formedness of a node: an element node's element is well-formed.
pub open spec fn node_wf(n: Node) -> bool
    decreases n,
{
    match n {
        Node::Element(e) => e.wf(),
        _ => true,
    }
}

impl Default for Element {
    fn default() -> (r: Self)
        ensures
            r.name@ == Seq::<char>::empty(),
            r.variant == ElementVariant::Void,
            r.attributes@.len() == 0,
            r.classes@.len() == 0,
            r.children@.len() == 0,
    {
        Element {
            name: String::new(),
            variant: ElementVariant::Void,
            attributes: Vec::new(),
            classes: Vec::new(),
            children: Vec::new(),
            source_span: SourceSpan::new(String::new(), 0, 0, 0, 0),
        }
    }
}

} // verus!
