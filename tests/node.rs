use lithtml::{Element, Node};

#[test]
fn node_utillity_functions() {
    let node = Node::Text("test".to_string());

    assert_eq!(node.text(), Some("test"));
    assert_eq!(node.element(), None);
    assert_eq!(node.comment(), None);

    let node = Node::Element(Element::default());

    assert_eq!(node.text(), None);
    assert_eq!(node.element(), Some(&Element::default()));
    assert_eq!(node.comment(), None);

    let node = Node::Comment("test".to_string());

    assert_eq!(node.text(), None);
    assert_eq!(node.element(), None);
    assert_eq!(node.comment(), Some("test"));
}

#[test]
fn new_text_and_comment_nodes() {
    assert_eq!(Node::new_text(" hi "), Node::Text(" hi ".to_string()));
    assert_eq!(Node::new_comment("c"), Node::Comment("c".to_string()));
}
