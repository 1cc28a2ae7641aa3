use lithtml::{Dom, DomVariant, ElementVariant, Event, Node, Rule};

fn ev(rule: Rule, text: &str, inner: Vec<Event>) -> Event {
    Event {
        rule,
        text: text.to_string(),
        inner,
        start_line: 1,
        end_line: 1,
        start_column: 1,
        end_column: 1 + text.chars().count(),
    }
}

fn name(n: &str) -> Event {
    ev(Rule::ElName, n, vec![])
}

fn end() -> Event {
    ev(Rule::ElNormalEnd, "", vec![])
}

fn element(n: &str, mut parts: Vec<Event>) -> Event {
    let mut inner = vec![name(n)];
    inner.append(&mut parts);
    inner.push(end());
    ev(Rule::NodeElement, n, inner)
}

fn quoted(k: &str, v: &str) -> Event {
    ev(
        Rule::Attr,
        k,
        vec![
            ev(Rule::AttrKey, k, vec![]),
            ev(Rule::AttrQuoted, v, vec![ev(Rule::AttrValue, v, vec![])]),
        ],
    )
}

fn comment(c: &str) -> Event {
    ev(Rule::NodeComment, c, vec![ev(Rule::NodeText, c, vec![])])
}

fn text(t: &str) -> Event {
    ev(Rule::NodeText, t, vec![])
}

#[test]
fn it_can_parse_empty_document() {
    let dom = Dom::parse(&vec![ev(Rule::Eoi, "", vec![])]).unwrap();
    assert_eq!(dom.tree_type, DomVariant::Empty);
    assert!(dom.children.is_empty());
    assert!(dom.warnings.is_empty());
}

#[test]
fn whitespace_only_input_is_empty() {
    let dom = Dom::parse(&vec![text("  \n\t "), ev(Rule::Eoi, "", vec![])]).unwrap();
    assert_eq!(dom.tree_type, DomVariant::Empty);
    assert!(dom.children.is_empty());
}

#[test]
fn it_can_parse_document_with_just_comments() {
    let dom = Dom::parse(&vec![comment("x"), comment("y"), comment("z")]).unwrap();
    assert_eq!(dom.tree_type, DomVariant::DocumentFragment);
    assert_eq!(
        dom.children,
        vec![
            Node::Comment("x".to_string()),
            Node::Comment("y".to_string()),
            Node::Comment("z".to_string())
        ]
    );
}

#[test]
fn it_can_parse_document_with_just_one_comment() {
    let dom = Dom::parse(&vec![comment(" hello !\"#/()= ")]).unwrap();
    assert_eq!(dom.tree_type, DomVariant::DocumentFragment);
    assert_eq!(dom.children, vec![Node::Comment(" hello !\"#/()= ".to_string())]);
}

#[test]
fn doctype_and_html_is_a_document() {
    let events = vec![
        ev(Rule::Doctype, "<!doctype html>", vec![]),
        element("html", vec![element("body", vec![])]),
    ];
    let dom = Dom::parse(&events).unwrap();
    assert_eq!(dom.tree_type, DomVariant::Document);
    assert_eq!(dom.children.len(), 1);
}

#[test]
fn second_html_root_is_an_error() {
    let events = vec![
        ev(Rule::Doctype, "<!doctype html>", vec![]),
        element("html", vec![]),
        element("HTML", vec![]),
    ];
    let err = Dom::parse(&events).unwrap_err();
    assert_eq!(err.message(), "Document with multiple HTML tags");
}

#[test]
fn fragment_with_body_is_an_error() {
    let err = Dom::parse(&vec![element("body", vec![])]).unwrap_err();
    assert_eq!(err.message(), "A document fragment should not include body");
    let err = Dom::parse(&vec![element("div", vec![]), element("HEAD", vec![])]).unwrap_err();
    assert_eq!(err.message(), "A document fragment should not include HEAD");
}

#[test]
fn html_after_other_elements_is_an_error() {
    let err = Dom::parse(&vec![element("p", vec![]), element("html", vec![])]).unwrap_err();
    assert_eq!(err.message(), "A document fragment should not include html");
}

#[test]
fn fragment_of_one_html_element_is_a_document() {
    let dom = Dom::parse(&vec![comment("c"), element("Html", vec![]), text(" ")]).unwrap();
    assert_eq!(dom.tree_type, DomVariant::Document);
    assert_eq!(dom.children.len(), 2);
}

#[test]
fn duplicate_attribute_last_wins() {
    let dom = Dom::parse(&vec![element("div", vec![quoted("a", "1"), quoted("a", "2")])]).unwrap();
    let el = dom.children[0].element().unwrap();
    assert_eq!(el.attributes, vec![("a".to_string(), Some("2".to_string()))]);
}

#[test]
fn class_attribute_goes_to_classes() {
    let dom = Dom::parse(&vec![element("div", vec![quoted("class", "b  c"), quoted("id", "x")])]).unwrap();
    let el = dom.children[0].element().unwrap();
    assert_eq!(el.classes, vec!["b".to_string(), "c".to_string()]);
    assert_eq!(el.attributes, vec![("id".to_string(), Some("x".to_string()))]);
}

#[test]
fn attributes_are_kept_in_key_order() {
    let dom = Dom::parse(&vec![element("a", vec![quoted("z", "1"), quoted("b", "2"), quoted("m", "3")])]).unwrap();
    let el = dom.children[0].element().unwrap();
    let keys: Vec<&str> = el.attributes.iter().map(|a| a.0.as_str()).collect();
    assert_eq!(keys, vec!["b", "m", "z"]);
}

#[test]
fn unquoted_and_bare_attributes() {
    let attr = ev(
        Rule::Attr,
        "id = cat ",
        vec![ev(Rule::AttrKey, " id ", vec![]), ev(Rule::AttrNonQuoted, " cat ", vec![])],
    );
    let bare = ev(Rule::Attr, "hidden", vec![ev(Rule::AttrKey, "hidden", vec![])]);
    let dom = Dom::parse(&vec![element("div", vec![attr, bare])]).unwrap();
    let el = dom.children[0].element().unwrap();
    assert_eq!(
        el.attributes,
        vec![("hidden".to_string(), None), ("id".to_string(), Some("cat".to_string()))]
    );
}

#[test]
fn malformed_attribute_is_a_warning() {
    let bad = ev(Rule::Attr, "x", vec![ev(Rule::ElName, "x", vec![])]);
    let dom = Dom::parse(&vec![element("div", vec![bad, quoted("k", "v")])]).unwrap();
    assert_eq!(dom.warnings, vec!["Failed to parse attr: el_name".to_string()]);
    let el = dom.children[0].element().unwrap();
    assert_eq!(el.attributes.len(), 1);
}

#[test]
fn malformed_quoted_value_is_a_warning() {
    let bad = ev(
        Rule::Attr,
        "x",
        vec![ev(Rule::AttrKey, "x", vec![]), ev(Rule::AttrQuoted, "'v'", vec![ev(Rule::AttrKey, "v", vec![])])],
    );
    let dom = Dom::parse(&vec![element("div", vec![bad])]).unwrap();
    assert_eq!(dom.warnings, vec!["Failed to parse attr value: attr_key".to_string()]);
}

#[test]
fn malformed_child_is_dropped_with_a_warning() {
    let bad_child = ev(Rule::NodeElement, "<i>", vec![name("i"), ev(Rule::Doctype, "", vec![])]);
    let dom = Dom::parse(&vec![element("div", vec![bad_child, text("ok")])]).unwrap();
    assert_eq!(dom.tree_type, DomVariant::DocumentFragment);
    assert_eq!(dom.warnings, vec!["Failed to create element at rule: doctype".to_string()]);
    let el = dom.children[0].element().unwrap();
    assert_eq!(el.children, vec![Node::Text("ok".to_string())]);
}

#[test]
fn dangling_element_is_dropped_silently() {
    let dangling = ev(Rule::NodeElement, "</h1>", vec![ev(Rule::ElDangling, "</h1>", vec![])]);
    let dom = Dom::parse(&vec![dangling]).unwrap();
    assert_eq!(dom.tree_type, DomVariant::Empty);
    assert!(dom.children.is_empty());
    assert!(dom.warnings.is_empty());
}

#[test]
fn element_variants_and_text() {
    let void = ev(Rule::NodeElement, "<br>", vec![ev(Rule::ElVoidName, "br", vec![])]);
    let dom = Dom::parse(&vec![element("p", vec![text("  a b "), void, text("\n ")])]).unwrap();
    let p = dom.children[0].element().unwrap();
    assert_eq!(p.variant, ElementVariant::Normal);
    assert_eq!(p.children.len(), 2);
    assert_eq!(p.children[0], Node::Text("  a b ".to_string()));
    assert_eq!(p.children[1].element().unwrap().variant, ElementVariant::Void);
}

#[test]
fn it_can_generate_source_span() {
    let mut el = element("template", vec![]);
    el.start_line = 2;
    el.end_line = 5;
    el.start_column = 3;
    el.end_column = 14;
    let dom = Dom::parse(&vec![el]).unwrap();
    let span = &dom.children[0].element().unwrap().source_span;
    assert_eq!(span.text, "template");
    assert_eq!((span.start_line, span.end_line, span.start_column, span.end_column), (2, 5, 3, 14));
}

#[test]
fn node_parse_ignores_warnings_and_validation() {
    let bad_child = ev(Rule::NodeElement, "<i>", vec![name("i"), ev(Rule::Doctype, "", vec![])]);
    let nodes = Node::parse(&vec![
        ev(Rule::Doctype, "<!doctype html>", vec![]),
        element("body", vec![]),
        bad_child,
        text("x"),
        comment("c"),
    ])
    .unwrap();
    assert_eq!(nodes.len(), 3);
    assert_eq!(nodes[0].element().unwrap().name, "body");
    assert_eq!(nodes[1], Node::Text("x".to_string()));
    assert_eq!(nodes[2], Node::Comment("c".to_string()));
}

#[test]
fn descendants_in_pre_order() {
    let dom = Dom::parse(&vec![element(
        "a",
        vec![element("b", vec![element("c", vec![]), text("t")]), element("d", vec![])],
    )])
    .unwrap();
    let root = &dom.children[0];
    let names: Vec<String> = root
        .descendants()
        .iter()
        .map(|n| match n {
            Node::Element(e) => e.name.clone(),
            Node::Text(t) => t.clone(),
            Node::Comment(c) => c.clone(),
        })
        .collect();
    assert_eq!(names, vec!["b", "c", "t", "d"]);
    let mut it = root.iter();
    let mut count = 0;
    while it.next().is_some() {
        count += 1;
    }
    assert_eq!(count, 4);
    assert!(it.next().is_none());
    assert!(Node::Text("x".to_string()).descendants().is_empty());
}

#[test]
fn unnamed_element_with_parts_gives_no_node() {
    let unnamed = ev(Rule::NodeElement, "<>", vec![quoted("a", "1"), text("x"), end()]);
    let dom = Dom::parse(&vec![unnamed, comment("c")]).unwrap();
    assert_eq!(dom.tree_type, DomVariant::DocumentFragment);
    assert_eq!(dom.children, vec![Node::Comment("c".to_string())]);
    assert!(dom.warnings.is_empty());
}

#[test]
fn rule_names_in_messages() {
    assert_eq!(Rule::Eoi.name(), "EOI");
    assert_eq!(Rule::AttrNonQuoted.name(), "attr_non_quoted");
}
