use markup_tree::AttrMap;
use markup_tree::ElementData;
use markup_tree::Node;
use markup_tree::NodeType;
use markup_tree::dom::render_tree;

#[test]
fn test_element_data_new() {
    let mut attrs = AttrMap::new();
    attrs.insert("id".to_string(), "test-id".to_string());
    attrs.insert("class".to_string(), "test-class".to_string());

    let element = ElementData::new("div".to_string(), attrs);

    assert_eq!(element.tag_name, "div");
    assert_eq!(element.get_id(), Some("test-id".to_string()));
    assert_eq!(element.get_classes(), vec!["test-class".to_string()]);
}

#[test]
fn test_node_new() {
    let text_node = Node::new(NodeType::Text("hello".to_string()), vec![]);
    assert_eq!(text_node.node_type, NodeType::Text("hello".to_string()));

    let mut attrs = AttrMap::new();
    attrs.insert("id".to_string(), "test-id".to_string());
    let mut attrs2 = AttrMap::new();
    attrs2.insert("id".to_string(), "test-id".to_string());

    let element_node = Node::new(
        NodeType::Element(ElementData::new("div".to_string(), attrs)),
        vec![Node::new(NodeType::Text("hello".to_string()), vec![])],
    );

    assert_eq!(
        element_node.node_type,
        NodeType::Element(ElementData::new("div".to_string(), attrs2))
    );
    assert_eq!(element_node.children, vec![text_node]);
}

#[test]
fn test_pretty_print() {
    let text_node = Node::new(NodeType::Text("hello".to_string()), vec![]);

    let mut attrs = AttrMap::new();
    attrs.insert("id".to_string(), "test-id".to_string());

    let element_node = Node::new(
        NodeType::Element(ElementData::new("div".to_string(), attrs)),
        vec![text_node],
    );

    let rendered = render_tree(&element_node, 0);
    assert_eq!(rendered, "<div>\n  hello\n</div>\n");
}

#[test]
fn test_render_comment_line() {
    let comment = Node::new(NodeType::Comment(" note ".to_string()), vec![]);
    assert_eq!(render_tree(&comment, 4), "    <!-- note -->\n");
}

#[test]
fn test_query_idempotence() {
    let mut attrs = AttrMap::new();
    attrs.insert("id".to_string(), "x".to_string());
    attrs.insert("class".to_string(), "a b".to_string());
    let element = ElementData::new("div".to_string(), attrs);

    assert_eq!(element.get_id(), element.get_id());
    assert_eq!(element.get_classes(), element.get_classes());
}

#[test]
fn test_get_classes_keeps_empty_tokens() {
    let mut attrs = AttrMap::new();
    attrs.insert("class".to_string(), "a  b".to_string());
    let element = ElementData::new("p".to_string(), attrs);
    assert_eq!(
        element.get_classes(),
        vec!["a".to_string(), "".to_string(), "b".to_string()]
    );
}

#[test]
fn test_get_classes_absent() {
    let element = ElementData::new("p".to_string(), AttrMap::new());
    assert_eq!(element.get_classes(), Vec::<String>::new());
    assert_eq!(element.get_id(), None);
}

#[test]
fn test_attr_overwrite() {
    let mut attrs = AttrMap::new();
    attrs.insert("id".to_string(), "first".to_string());
    attrs.insert("id".to_string(), "second".to_string());
    let element = ElementData::new("div".to_string(), attrs);
    assert_eq!(element.get_id(), Some("second".to_string()));
}
