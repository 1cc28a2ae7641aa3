//! Rendering a tree back to markup.
use crate::dom::Dom;
use crate::element::{Attribute, Element, ElementVariant};
use crate::node::Node;
use crate::options::{indent, pretty_options, quote_char, FormattingOptions};
use crate::text::{trim, trimmed};
use vstd::prelude::*;

verus! {

broadcast use vstd::std_specs::vec::axiom_vec_decreases_to_view, vstd::seq::axiom_seq_index_decreases;

/// The depth of the children of a node at depth `d`, saturated at the
/// largest `usize`.
pub open spec fn child_depth(d: int, o: FormattingOptions) -> int {
    if d + o.tab_size <= usize::MAX {
        d + o.tab_size
    } else {
        usize::MAX as int
    }
}

/// `s` with each quote character `q` preceded by a backslash.
pub open spec fn escape(s: Seq<char>, q: char) -> Seq<char>
    decreases s.len(),
{
    if s.len() == 0 {
        Seq::empty()
    } else {
        escape(s.drop_last(), q) + if s.last() == q {
            seq!['\\', q]
        } else {
            seq![s.last()]
        }
    }
}

pub open spec fn value_len(v: Option<String>) -> int {
    match v {
        Some(s) => s@.len() as int,
        None => 0,
    }
}

/// The summed length of the attributes: key, value and four characters each.
pub open spec fn attrs_len(s: Seq<Attribute>) -> int
    decreases s.len(),
{
    if s.len() == 0 {
        0
    } else {
        attrs_len(s.drop_last()) + s.last().0@.len() + value_len(s.last().1) + 4
    }
}

/// The summed length of the classes, one separator each.
pub open spec fn classes_len(cs: Seq<String>) -> int
    decreases cs.len(),
{
    if cs.len() == 0 {
        0
    } else {
        classes_len(cs.drop_last()) + cs.last()@.len() + 1
    }
}

/// The projected length of the opening tag of `e` at depth `d` on one line.
pub open spec fn inline_len(e: Element, d: int) -> int {
    d + 1 + e.name@.len() + attrs_len(e.attributes@) + 1 + if e.classes@.len() == 0 {
        0
    } else {
        classes_len(e.classes@) + 8
    }
}

/// The opening tag of `e` at depth `d` is split over several lines.
pub open spec fn wrapped(e: Element, o: FormattingOptions, d: int) -> bool {
    inline_len(e, d) > o.max_len && o.new_lines
}

/// What precedes the class block and each attribute.
pub open spec fn sep(e: Element, o: FormattingOptions, d: int) -> Seq<char> {
    if wrapped(e, o, d) {
        "\n"@ + indent(o, child_depth(d, o))
    } else {
        " "@
    }
}

/// Class `c` at position `i` of the class block: trimmed, after a space but
/// for the first, nothing when blank.
pub open spec fn class_word(c: Seq<char>, i: int) -> Seq<char> {
    if trim(c).len() == 0 {
        Seq::empty()
    } else if i == 0 {
        trim(c)
    } else {
        " "@ + trim(c)
    }
}

pub open spec fn class_join(cs: Seq<String>) -> Seq<char>
    decreases cs.len(),
{
    if cs.len() == 0 {
        Seq::empty()
    } else {
        class_join(cs.drop_last()) + class_word(cs.last()@, cs.len() - 1)
    }
}

/// The class block: `class="c1 c2"`, where some class is not blank.
pub open spec fn class_block(e: Element, o: FormattingOptions, d: int) -> Seq<char> {
    if class_join(e.classes@).len() == 0 {
        Seq::empty()
    } else {
        sep(e, o, d) + "class="@ + seq![quote_char(o)] + class_join(e.classes@) + seq![quote_char(o)]
    }
}

pub open spec fn attr_text(a: Attribute, o: FormattingOptions, s: Seq<char>) -> Seq<char> {
    s + a.0@ + match a.1 {
        Some(v) => "="@ + seq![quote_char(o)] + escape(v@, quote_char(o)) + seq![quote_char(o)],
        None => Seq::empty(),
    }
}

/// The attributes in their order, each after separator `s`.
pub open spec fn attrs_text(a: Seq<Attribute>, o: FormattingOptions, s: Seq<char>) -> Seq<char>
    decreases a.len(),
{
    if a.len() == 0 {
        Seq::empty()
    } else {
        attrs_text(a.drop_last(), o, s) + attr_text(a.last(), o, s)
    }
}

/// The opening tag up to its closing bracket.
pub open spec fn open_tag(e: Element, o: FormattingOptions, d: int) -> Seq<char> {
    indent(o, d) + "<"@ + e.name@ + class_block(e, o, d) + attrs_text(e.attributes@, o, sep(e, o, d)) + if wrapped(
        e,
        o,
        d,
    ) {
        "\n"@ + indent(o, d)
    } else {
        Seq::empty()
    }
}

/// The single text child of `e` fits on the line of its tags.
pub open spec fn inline_text(e: Element, o: FormattingOptions, d: int) -> bool {
    &&& e.children@.len() == 1
    &&& e.children@[0] is Text
    &&& d + o.tab_size + e.children@[0]->Text_0@.len() + e.name@.len() + 3 <= o.max_len
}

pub open spec fn render_node(n: Node, o: FormattingOptions, d: int) -> Seq<char>
    decreases n, 0int,
{
    match n {
        Node::Element(e) => render_element(e, o, d),
        Node::Text(t) => indent(o, d) + trim(t@),
        Node::Comment(c) => indent(o, d) + "<!-- "@ + c@ + " -->"@,
    }
}

/// The first `k` children of `e`, each on a line of its own one level deeper.
pub open spec fn render_children(e: Element, o: FormattingOptions, d: int, k: int) -> Seq<char>
    decreases e, k,
{
    if k <= 0 || k > e.children@.len() {
        Seq::empty()
    } else {
        render_children(e, o, d, k - 1) + "\n"@ + render_node(e.children@[k - 1], o, child_depth(d, o))
    }
}

/// The markup of element `e` at depth `d`.
pub open spec fn render_element(e: Element, o: FormattingOptions, d: int) -> Seq<char>
    decreases e, e.children@.len() + 1,
{
    let head = open_tag(e, o, d);
    if !(e.variant == ElementVariant::Normal && e.children@.len() > 0) {
        head + "/>"@
    } else if inline_text(e, o, d) {
        head + ">"@ + e.children@[0]->Text_0@ + "</"@ + e.name@ + ">"@
    } else {
        head + ">"@ + render_children(e, o, d, e.children@.len() as int) + "\n"@ + indent(o, d) + "</"@
            + e.name@ + ">"@
    }
}

/// The markup of root nodes `ns[..k]`: each at depth zero, followed by a line break.
pub open spec fn render_nodes(ns: Seq<Node>, o: FormattingOptions, k: int) -> Seq<char>
    decreases k,
{
    if k <= 0 || k > ns.len() {
        Seq::empty()
    } else {
        render_nodes(ns, o, k - 1) + render_node(ns[k - 1], o, 0) + "\n"@
    }
}

/// The markup of a tree.
pub open spec fn render_dom(d: Dom, o: FormattingOptions) -> Seq<char> {
    render_nodes(d.children@, o, d.children@.len() as int)
}

/// The room left on a line of `room` columns after `x` more, or that it overflowed.
fn take(room: usize, over: bool, x: usize) -> (r: (usize, bool))
    ensures
        r.1 == (over || x > room),
        !r.1 ==> r.0 == room - x,
{
    if over || x > room {
        (room, true)
    } else {
        (room - x, false)
    }
}

fn quote_str(o: &FormattingOptions) -> (r: &'static str)
    ensures
        r@ == seq![quote_char(*o)],
{
    proof {
        reveal_strlit("\"");
        reveal_strlit("'");
    }
    if o.double_quot {
        "\""
    } else {
        "'"
    }
}

/// Writes `v` with each quote character of the options escaped.
fn write_escaped(f: &mut String, v: &str, o: &FormattingOptions)
    ensures
        final(f)@ == old(f)@ + escape(v@, quote_char(*o)),
{
    let q = o.quotes();
    let n = v.unicode_len();
    let mut i: usize = 0;
    proof {
        assert(v@.subrange(0, 0) =~= Seq::<char>::empty());
        assert(old(f)@ + escape(Seq::<char>::empty(), q) =~= old(f)@);
    }
    while i < n
        invariant
            n == v@.len(),
            i <= n,
            q == quote_char(*o),
            f@ == old(f)@ + escape(v@.subrange(0, i as int), q),
        decreases n - i,
    {
        let c = v.get_char(i);
        proof {
            assert(v@.subrange(0, i + 1).drop_last() =~= v@.subrange(0, i as int));
        }
        if c == q {
            proof {
                reveal_strlit("\\");
            }
            f.append("\\");
            f.append(quote_str(o));
            proof {
                assert(f@ =~= old(f)@ + escape(v@.subrange(0, i + 1), q));
            }
        } else {
            f.append(v.substring_char(i, i + 1));
            proof {
                assert(v@.subrange(i as int, i + 1) =~= seq![c]);
                assert(f@ =~= old(f)@ + escape(v@.subrange(0, i + 1), q));
            }
        }
        i = i + 1;
    }
    proof {
        assert(v@.subrange(0, n as int) =~= v@);
    }
}

impl Element {
    /// The length of the opening tag on one line exceeds the maximum.
    fn exceeds(&self, o: &FormattingOptions, depth: usize) -> (r: bool)
        ensures
            r == (inline_len(*self, depth as int) > o.max_len),
    {
        let ghost max = o.max_len as int;
        let (mut room, mut over) = take(o.max_len, false, depth);
        let ghost mut used: int = depth as int;
        let (r1, o1) = take(room, over, 1);
        room = r1;
        over = o1;
        let (r1, o1) = take(room, over, self.name.as_str().unicode_len());
        room = r1;
        over = o1;
        proof {
            used = used + 1 + self.name@.len();
        }
        let n = self.attributes.len();
        let mut i: usize = 0;
        proof {
            assert(self.attributes@.subrange(0, 0) =~= Seq::<Attribute>::empty());
        }
        while i < n
            invariant
                n == self.attributes@.len(),
                i <= n,
                max == o.max_len,
                used == depth + 1 + self.name@.len() + attrs_len(self.attributes@.subrange(0, i as int)),
                over == (used > max),
                !over ==> room == max - used,
            decreases n - i,
        {
            let a = &self.attributes[i];
            let (r1, o1) = take(room, over, a.0.as_str().unicode_len());
            room = r1;
            over = o1;
            let vl: usize = match &a.1 {
                Some(v) => v.as_str().unicode_len(),
                None => 0,
            };
            let (r1, o1) = take(room, over, vl);
            room = r1;
            over = o1;
            let (r1, o1) = take(room, over, 4);
            room = r1;
            over = o1;
            proof {
                assert(self.attributes@.subrange(0, i + 1).drop_last() =~= self.attributes@.subrange(0, i as int));
                used = used + a.0@.len() + value_len(a.1) + 4;
            }
            i = i + 1;
        }
        proof {
            assert(self.attributes@.subrange(0, n as int) =~= self.attributes@);
        }
        let (r1, o1) = take(room, over, 1);
        room = r1;
        over = o1;
        proof {
            used = used + 1;
        }
        let m = self.classes.len();
        if m > 0 {
            let mut j: usize = 0;
            proof {
                assert(self.classes@.subrange(0, 0) =~= Seq::<String>::empty());
            }
            while j < m
                invariant
                    m == self.classes@.len(),
                    j <= m,
                    max == o.max_len,
                    used == depth + 1 + self.name@.len() + attrs_len(self.attributes@) + 1 + classes_len(
                        self.classes@.subrange(0, j as int),
                    ),
                    over == (used > max),
                    !over ==> room == max - used,
                decreases m - j,
            {
                let (r1, o1) = take(room, over, self.classes[j].as_str().unicode_len());
                room = r1;
                over = o1;
                let (r1, o1) = take(room, over, 1);
                room = r1;
                over = o1;
                proof {
                    assert(self.classes@.subrange(0, j + 1).drop_last() =~= self.classes@.subrange(0, j as int));
                    used = used + self.classes@[j as int]@.len() + 1;
                }
                j = j + 1;
            }
            proof {
                assert(self.classes@.subrange(0, m as int) =~= self.classes@);
            }
            let (r1, o1) = take(room, over, 8);
            over = o1;
        }
        over
    }

    /// Writes the class block's classes: trimmed, space-separated.
    fn write_classes(&self, f: &mut String)
        ensures
            final(f)@ == old(f)@ + class_join(self.classes@),
    {
        let m = self.classes.len();
        let mut j: usize = 0;
        proof {
            assert(self.classes@.subrange(0, 0) =~= Seq::<String>::empty());
            assert(old(f)@ + class_join(Seq::<String>::empty()) =~= old(f)@);
        }
        while j < m
            invariant
                m == self.classes@.len(),
                j <= m,
                f@ == old(f)@ + class_join(self.classes@.subrange(0, j as int)),
            decreases m - j,
        {
            let t = trimmed(self.classes[j].as_str());
            proof {
                let sub = self.classes@.subrange(0, j + 1);
                assert(sub.drop_last() =~= self.classes@.subrange(0, j as int));
                assert(sub.last() == self.classes@[j as int]);
            }
            if t.as_str().unicode_len() > 0 {
                if j > 0 {
                    f.append(" ");
                }
                f.append(t.as_str());
            }
            proof {
                assert(f@ =~= old(f)@ + class_join(self.classes@.subrange(0, j + 1)));
            }
            j = j + 1;
        }
        proof {
            assert(self.classes@.subrange(0, m as int) =~= self.classes@);
        }
    }

    /// Writes the attributes in key order, each after `sep`.
    fn write_attributes(&self, f: &mut String, o: &FormattingOptions, sep: &str)
        ensures
            final(f)@ == old(f)@ + attrs_text(self.attributes@, *o, sep@),
    {
        let n = self.attributes.len();
        let mut i: usize = 0;
        proof {
            assert(self.attributes@.subrange(0, 0) =~= Seq::<Attribute>::empty());
            assert(old(f)@ + attrs_text(Seq::<Attribute>::empty(), *o, sep@) =~= old(f)@);
        }
        while i < n
            invariant
                n == self.attributes@.len(),
                i <= n,
                f@ == old(f)@ + attrs_text(self.attributes@.subrange(0, i as int), *o, sep@),
            decreases n - i,
        {
            let a = &self.attributes[i];
            let ghost before = f@;
            f.append(sep);
            f.append(a.0.as_str());
            match &a.1 {
                Some(v) => {
                    f.append("=");
                    f.append(quote_str(o));
                    write_escaped(f, v.as_str(), o);
                    f.append(quote_str(o));
                },
                None => {},
            }
            proof {
                let sub = self.attributes@.subrange(0, i + 1);
                assert(sub.drop_last() =~= self.attributes@.subrange(0, i as int));
                assert(sub.last() == *a);
                assert(f@ =~= before + attr_text(*a, *o, sep@));
            }
            i = i + 1;
        }
        proof {
            assert(self.attributes@.subrange(0, n as int) =~= self.attributes@);
        }
    }

    /// Writes the class block, with `gap` before it.
    fn write_class_block(&self, f: &mut String, o: &FormattingOptions, gap: &str)
        ensures
            final(f)@ == old(f)@ + if class_join(self.classes@).len() == 0 {
                Seq::empty()
            } else {
                gap@ + "class="@ + seq![quote_char(*o)] + class_join(self.classes@) + seq![quote_char(*o)]
            },
    {
        let mut joined = String::new();
        self.write_classes(&mut joined);
        proof {
            assert(joined@ =~= class_join(self.classes@));
        }
        if joined.as_str().unicode_len() > 0 {
            f.append(gap);
            f.append("class=");
            f.append(quote_str(o));
            f.append(joined.as_str());
            f.append(quote_str(o));
            proof {
                assert(f@ =~= old(f)@ + (gap@ + "class="@ + seq![quote_char(*o)] + class_join(self.classes@) + seq![quote_char(*o)]));
            }
        } else {
            proof {
                assert(f@ =~= old(f)@ + Seq::<char>::empty());
            }
        }
    }

    /// Writes the opening tag up to its closing bracket.
    fn write_open_tag(&self, f: &mut String, o: &FormattingOptions, depth: usize)
        ensures
            final(f)@ == old(f)@ + open_tag(*self, *o, depth as int),
    {
        let cd: usize = if depth <= usize::MAX - o.tab_size as usize {
            depth + o.tab_size as usize
        } else {
            usize::MAX
        };
        o.fmt_depth(f, depth);
        f.append("<");
        f.append(self.name.as_str());
        let wrap = self.exceeds(o, depth) && o.new_lines;
        let mut gap = String::new();
        if wrap {
            gap.append("\n");
            o.fmt_depth(&mut gap, cd);
        } else {
            gap.append(" ");
        }
        proof {
            assert(gap@ =~= sep(*self, *o, depth as int));
        }
        let ghost mid = f@;
        self.write_class_block(f, o, gap.as_str());
        let ghost cls = f@;
        self.write_attributes(f, o, gap.as_str());
        let ghost att = f@;
        let mut tail = String::new();
        if wrap {
            tail.append("\n");
            o.fmt_depth(&mut tail, depth);
        }
        f.append(tail.as_str());
        proof {
            let e = *self;
            let d = depth as int;
            assert(wrap == wrapped(e, *o, d));
            assert(cls == mid + class_block(e, *o, d));
            assert(att == cls + attrs_text(e.attributes@, *o, sep(e, *o, d)));
            assert(tail@ =~= (if wrapped(e, *o, d) { "\n"@ + indent(*o, d) } else { Seq::empty() }));
            assert(f@ =~= old(f)@ + open_tag(e, *o, d));
        }
    }

    /// The single text child fits on the line of the tags.
    fn fits_inline(&self, o: &FormattingOptions, depth: usize) -> (r: bool)
        ensures
            r == inline_text(*self, *o, depth as int),
    {
        if self.children.len() != 1 {
            return false;
        }
        match &self.children[0] {
            Node::Text(t) => {
                let (room, over) = take(o.max_len, false, depth);
                let (room, over) = take(room, over, o.tab_size as usize);
                let (room, over) = take(room, over, t.as_str().unicode_len());
                let (room, over) = take(room, over, self.name.as_str().unicode_len());
                let (room, over) = take(room, over, 3);
                !over
            },
            _ => false,
        }
    }

    /// Writes the element as markup at `depth`.
    pub fn fmt_opt(&self, f: &mut String, o: &FormattingOptions, depth: usize)
        ensures
            final(f)@ == old(f)@ + render_element(*self, *o, depth as int),
        decreases self,
    {
        let cd: usize = if depth <= usize::MAX - o.tab_size as usize {
            depth + o.tab_size as usize
        } else {
            usize::MAX
        };
        self.write_open_tag(f, o, depth);
        let ghost head = f@;
        if !(self.variant == ElementVariant::Normal && self.children.len() > 0) {
            f.append("/>");
            proof {
                assert(f@ =~= old(f)@ + render_element(*self, *o, depth as int));
            }
            return;
        }
        f.append(">");
        if self.fits_inline(o, depth) {
            match &self.children[0] {
                Node::Text(t) => {
                    f.append(t.as_str());
                },
                _ => {},
            }
            f.append("</");
            f.append(self.name.as_str());
            f.append(">");
            proof {
                assert(f@ =~= old(f)@ + render_element(*self, *o, depth as int));
            }
            return;
        }
        let n = self.children.len();
        let mut i: usize = 0;
        let ghost base = f@;
        proof {
            assert(base + render_children(*self, *o, depth as int, 0) =~= base);
        }
        while i < n
            invariant
                n == self.children@.len(),
                i <= n,
                cd == child_depth(depth as int, *o),
                f@ == base + render_children(*self, *o, depth as int, i as int),
            decreases n - i,
        {
            f.append("\n");
            self.children[i].fmt_opt(f, o, cd);
            proof {
                assert(f@ =~= base + render_children(*self, *o, depth as int, i + 1));
            }
            i = i + 1;
        }
        f.append("\n");
        o.fmt_depth(f, depth);
        f.append("</");
        f.append(self.name.as_str());
        f.append(">");
        proof {
            assert(f@ =~= old(f)@ + render_element(*self, *o, depth as int));
        }
    }
}

impl Node {
    /// Writes the node as markup at `depth`.
    pub fn fmt_opt(&self, f: &mut String, o: &FormattingOptions, depth: usize)
        ensures
            final(f)@ == old(f)@ + render_node(*self, *o, depth as int),
        decreases self,
    {
        match self {
            Node::Element(e) => {
                e.fmt_opt(f, o, depth);
            },
            Node::Text(t) => {
                o.fmt_depth(f, depth);
                let s = trimmed(t.as_str());
                f.append(s.as_str());
                proof {
                    assert(f@ =~= old(f)@ + render_node(*self, *o, depth as int));
                }
            },
            Node::Comment(c) => {
                o.fmt_depth(f, depth);
                f.append("<!-- ");
                f.append(c.as_str());
                f.append(" -->");
                proof {
                    assert(f@ =~= old(f)@ + render_node(*self, *o, depth as int));
                }
            },
        }
    }
}

impl Element {
    /// The element as markup, with the pretty options.
    pub fn to_string(&self) -> (r: String)
        ensures
            r@ == render_element(*self, pretty_options(), 0),
    {
        let mut f = String::new();
        self.fmt_opt(&mut f, &FormattingOptions::pretty(), 0);
        proof {
            assert(f@ =~= render_element(*self, pretty_options(), 0));
        }
        f
    }
}

impl Node {
    /// The node as markup, with the pretty options.
    pub fn to_string(&self) -> (r: String)
        ensures
            r@ == render_node(*self, pretty_options(), 0),
    {
        let mut f = String::new();
        self.fmt_opt(&mut f, &FormattingOptions::pretty(), 0);
        proof {
            assert(f@ =~= render_node(*self, pretty_options(), 0));
        }
        f
    }
}

impl Dom {
    /// The tree as markup, with the pretty options.
    pub fn to_string(&self) -> (r: String)
        ensures
            r@ == render_dom(*self, pretty_options()),
    {
        let mut f = String::new();
        self.fmt_opt(&mut f, &FormattingOptions::pretty());
        proof {
            assert(f@ =~= render_dom(*self, pretty_options()));
        }
        f
    }

    /// Writes the tree as markup: each root node followed by a line break.
    pub fn fmt_opt(&self, f: &mut String, o: &FormattingOptions)
        ensures
            final(f)@ == old(f)@ + render_dom(*self, *o),
    {
        let n = self.children.len();
        let mut i: usize = 0;
        proof {
            assert(old(f)@ + render_nodes(self.children@, *o, 0) =~= old(f)@);
        }
        while i < n
            invariant
                n == self.children@.len(),
                i <= n,
                f@ == old(f)@ + render_nodes(self.children@, *o, i as int),
            decreases n - i,
        {
            self.children[i].fmt_opt(f, o, 0);
            f.append("\n");
            proof {
                assert(f@ =~= old(f)@ + render_nodes(self.children@, *o, i + 1));
            }
            i = i + 1;
        }
    }
}

} // verus!
