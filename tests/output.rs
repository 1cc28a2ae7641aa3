use lithtml::{Dom, Element, ElementVariant, FormattingOptions, Node};

fn el(name: &str, variant: ElementVariant, children: Vec<Node>) -> Element {
    let mut e = Element::default();
    e.name = name.to_string();
    e.variant = variant;
    e.children = children;
    e
}

#[test]
fn renders_inline_element_with_text() {
    let mut e = el("div", ElementVariant::Normal, vec![Node::Text(" Hello ".to_string())]);
    e.classes = vec!["b".to_string(), "c".to_string()];
    e.insert_attribute("id".to_string(), Some("a".to_string()));
    let mut dom = Dom::new();
    dom.children.push(Node::Element(e));
    assert_eq!(dom.to_string(), "<div class='b c' id='a'> Hello </div>\n");
}

#[test]
fn renders_children_on_their_own_lines() {
    let inner = el("p", ElementVariant::Normal, vec![Node::Text("x".to_string())]);
    let e = el(
        "div",
        ElementVariant::Normal,
        vec![Node::Element(inner), Node::Comment("c".to_string()), Node::Text("  t ".to_string())],
    );
    let mut dom = Dom::new();
    dom.children.push(Node::Element(e));
    dom.children.push(Node::Element(el("br", ElementVariant::Void, vec![])));
    assert_eq!(dom.to_string(), "<div>\n\t<p>x</p>\n\t<!-- c -->\n\tt\n</div>\n<br/>\n");
}

#[test]
fn wrap_boundary() {
    let mut e = el("a", ElementVariant::Void, vec![]);
    e.insert_attribute("x".to_string(), Some("1".to_string()));
    let mut o = FormattingOptions::pretty();
    o.max_len = 9;
    let mut f = String::new();
    e.fmt_opt(&mut f, &o, 0);
    assert_eq!(f, "<a x='1'/>");
    o.max_len = 8;
    let mut f = String::new();
    e.fmt_opt(&mut f, &o, 0);
    assert_eq!(f, "<a\n\tx='1'\n/>");
}

#[test]
fn compact_keeps_tags_on_one_line() {
    let mut e = el("a", ElementVariant::Void, vec![]);
    e.insert_attribute("x".to_string(), Some("1".to_string()));
    e.insert_attribute("b".to_string(), None);
    let mut f = String::new();
    e.fmt_opt(&mut f, &FormattingOptions::compact(), 0);
    assert_eq!(f, "<a b x='1'/>");
}

#[test]
fn quotes_are_escaped() {
    let mut e = el("div", ElementVariant::Void, vec![]);
    e.insert_attribute("cat".to_string(), Some("she says: 'mjau'".to_string()));
    e.insert_attribute("horse".to_string(), Some("says:\"pf\"".to_string()));
    let mut f = String::new();
    e.fmt_opt(&mut f, &FormattingOptions::compact(), 0);
    assert_eq!(f, "<div cat='she says: \\'mjau\\'' horse='says:\"pf\"'/>");
    let mut o = FormattingOptions::compact();
    o.double_quot = true;
    assert_eq!(o.quotes(), '"');
    let mut f = String::new();
    e.fmt_opt(&mut f, &o, 0);
    assert_eq!(f, "<div cat=\"she says: 'mjau'\" horse=\"says:\\\"pf\\\"\"/>");
}

#[test]
fn attribute_order_is_deterministic() {
    let mut a = el("x", ElementVariant::Void, vec![]);
    a.insert_attribute("b".to_string(), Some("2".to_string()));
    a.insert_attribute("a".to_string(), Some("1".to_string()));
    let mut b = el("x", ElementVariant::Void, vec![]);
    b.insert_attribute("a".to_string(), Some("1".to_string()));
    b.insert_attribute("b".to_string(), Some("2".to_string()));
    assert_eq!(a.to_string(), b.to_string());
    assert_eq!(a.to_string(), "<x a='1' b='2'/>");
}

#[test]
fn indentation_by_depth() {
    let o = FormattingOptions::pretty();
    let mut f = String::new();
    o.fmt_depth(&mut f, 3);
    assert_eq!(f, "");
    o.fmt_depth(&mut f, 9);
    assert_eq!(f, "\t\t");
    let mut f = String::new();
    FormattingOptions::compact().fmt_depth(&mut f, 9);
    assert_eq!(f, "");
}

#[test]
fn blank_classes_are_dropped_from_the_block() {
    let mut e = el("p", ElementVariant::Void, vec![]);
    e.classes = vec!["a".to_string(), " ".to_string(), " b ".to_string()];
    assert_eq!(Node::Element(e).to_string(), "<p class='a b'/>");
}

#[test]
fn all_blank_classes_give_no_block() {
    let mut e = el("p", ElementVariant::Void, vec![]);
    e.classes = vec![" ".to_string()];
    assert_eq!(e.to_string(), "<p/>");
}
