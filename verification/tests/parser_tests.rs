use markup_tree::HtmlParser;
use markup_tree::Node;
use markup_tree::NodeType;

fn parse(input: &str) -> Vec<Node> {
    let mut parser = HtmlParser::new(input);
    parser.parse_nodes()
}

#[test]
fn test_parse_simple_html() {
    let mut parser = HtmlParser::new("<html></html>");
    let nodes = parser.parse_nodes();

    assert_eq!(nodes.len(), 1);
    match &nodes[0].node_type {
        NodeType::Element(data) => {
            assert_eq!(data.tag_name, "html");
        }
        _ => panic!("Expected NodeType::Element"),
    }
}

#[test]
fn test_parse_html_with_nested_tags() {
    let mut parser = HtmlParser::new("<html><body><p>Test</p></body></html>");
    let nodes = parser.parse_nodes();

    assert_eq!(nodes.len(), 1);
    match &nodes[0].node_type {
        NodeType::Element(data) => {
            assert_eq!(data.tag_name, "html");
            assert_eq!(nodes[0].children.len(), 1);
            match &nodes[0].children[0].node_type {
                NodeType::Element(data) => {
                    assert_eq!(data.tag_name, "body");
                    assert_eq!(nodes[0].children[0].children.len(), 1);
                }
                _ => panic!("Expected NodeType::Element"),
            }
        }
        _ => panic!("Expected NodeType::Element"),
    }
}

#[test]
fn test_parse_html_with_text() {
    let mut parser = HtmlParser::new("<html>Hello World</html>");
    let nodes = parser.parse_nodes();

    assert_eq!(nodes.len(), 1);
    match &nodes[0].node_type {
        NodeType::Element(data) => {
            assert_eq!(data.tag_name, "html");
            assert_eq!(nodes[0].children.len(), 1);
            match &nodes[0].children[0].node_type {
                NodeType::Text(text) => {
                    assert_eq!(text, &"Hello World".to_string());
                }
                _ => panic!("Expected NodeType::Text"),
            }
        }
        _ => panic!("Expected NodeType::Element"),
    }
}

#[test]
fn test_parse_html_with_attributes() {
    let mut parser = HtmlParser::new("<html lang='en'><body class='main'></body></html>");
    let nodes = parser.parse_nodes();

    assert_eq!(nodes.len(), 1);
    match &nodes[0].node_type {
        NodeType::Element(data) => {
            assert_eq!(data.tag_name, "html");
            assert_eq!(nodes[0].children.len(), 1);
            match &nodes[0].children[0].node_type {
                NodeType::Element(data) => {
                    assert_eq!(data.tag_name, "body");
                    assert_eq!(data.get_classes(), vec!["main".to_string()]);
                }
                _ => panic!("Expected NodeType::Element"),
            }
        }
        _ => panic!("Expected NodeType::Element"),
    }
}

#[test]
fn test_parse_html_comment() {
    let mut parser = HtmlParser::new("<!-- This is a comment -->");
    let nodes = parser.parse_nodes();

    assert_eq!(nodes.len(), 1);
    match &nodes[0].node_type {
        NodeType::Comment(comment) => {
            assert_eq!(comment, " This is a comment ");
        }
        _ => panic!("Expected NodeType::Comment"),
    }
}

#[test]
fn test_well_formed_nesting() {
    let nodes = parse("<a><b>x</b></a>");

    assert_eq!(nodes.len(), 1);
    let a = &nodes[0];
    match &a.node_type {
        NodeType::Element(data) => assert_eq!(data.tag_name, "a"),
        _ => panic!("Expected NodeType::Element"),
    }
    assert_eq!(a.children.len(), 1);
    let b = &a.children[0];
    match &b.node_type {
        NodeType::Element(data) => assert_eq!(data.tag_name, "b"),
        _ => panic!("Expected NodeType::Element"),
    }
    assert_eq!(b.children.len(), 1);
    assert_eq!(b.children[0].node_type, NodeType::Text("x".to_string()));
    assert_eq!(b.children[0].children.len(), 0);
}

#[test]
fn test_unmatched_closer_splices() {
    // The closer names `a`, but the innermost open element is `b`: the
    // text child of `b` is spliced out beside it, `b` keeps no children,
    // and the deferred closer then matches `a`.
    let nodes = parse("<a><b>x</a>");

    assert_eq!(nodes.len(), 1);
    let a = &nodes[0];
    match &a.node_type {
        NodeType::Element(data) => assert_eq!(data.tag_name, "a"),
        _ => panic!("Expected NodeType::Element"),
    }
    assert_eq!(a.children.len(), 2);
    match &a.children[0].node_type {
        NodeType::Element(data) => assert_eq!(data.tag_name, "b"),
        _ => panic!("Expected NodeType::Element"),
    }
    assert_eq!(a.children[0].children.len(), 0);
    assert_eq!(a.children[1].node_type, NodeType::Text("x".to_string()));
}

#[test]
fn test_comment_degrade_short_form() {
    let nodes = parse("<!--->");
    assert_eq!(nodes.len(), 1);
    assert_eq!(nodes[0].node_type, NodeType::Comment("".to_string()));
}

#[test]
fn test_comment_empty() {
    let nodes = parse("<!-->");
    assert_eq!(nodes.len(), 1);
    assert_eq!(nodes[0].node_type, NodeType::Comment("".to_string()));
}

#[test]
fn test_bogus_comment_discards_through_gt() {
    let nodes = parse("<!x>hello");
    assert_eq!(nodes.len(), 2);
    assert_eq!(nodes[0].node_type, NodeType::Comment("".to_string()));
    assert_eq!(nodes[1].node_type, NodeType::Text("hello".to_string()));
}

#[test]
fn test_comment_nested_opening_closes_empty() {
    let nodes = parse("<!--a<!--b-->");
    assert_eq!(nodes.len(), 2);
    assert_eq!(nodes[0].node_type, NodeType::Comment("".to_string()));
    assert_eq!(nodes[1].node_type, NodeType::Text(">".to_string()));
}

#[test]
fn test_comment_partial_nested_prefix_kept() {
    let nodes = parse("<!--X<! Y-->");
    assert_eq!(nodes.len(), 1);
    assert_eq!(nodes[0].node_type, NodeType::Comment("X<! Y".to_string()));
}

#[test]
fn test_comment_spaced_dashes_close_empty() {
    let nodes = parse("<!--A<! --->rest");
    assert_eq!(nodes.len(), 2);
    assert_eq!(nodes[0].node_type, NodeType::Comment("".to_string()));
    assert_eq!(nodes[1].node_type, NodeType::Text("rest".to_string()));
}

#[test]
fn test_attributes_id_and_classes() {
    let nodes = parse("<div id='x' class=\"a b\"></div>");

    assert_eq!(nodes.len(), 1);
    match &nodes[0].node_type {
        NodeType::Element(data) => {
            assert_eq!(data.tag_name, "div");
            assert_eq!(data.get_id(), Some("x".to_string()));
            assert_eq!(data.get_classes(), vec!["a".to_string(), "b".to_string()]);
        }
        _ => panic!("Expected NodeType::Element"),
    }
}

#[test]
fn test_attribute_names_lower_cased() {
    let nodes = parse("<div ID='x'></div>");

    assert_eq!(nodes.len(), 1);
    match &nodes[0].node_type {
        NodeType::Element(data) => {
            assert_eq!(data.get_id(), Some("x".to_string()));
        }
        _ => panic!("Expected NodeType::Element"),
    }
}

#[test]
fn test_unquoted_attribute_value() {
    let nodes = parse("<div id = abc ></div>");

    assert_eq!(nodes.len(), 1);
    match &nodes[0].node_type {
        NodeType::Element(data) => {
            assert_eq!(data.get_id(), Some("abc".to_string()));
        }
        _ => panic!("Expected NodeType::Element"),
    }
}

#[test]
fn test_attribute_without_value_is_empty() {
    let nodes = parse("<div id></div>");

    assert_eq!(nodes.len(), 1);
    match &nodes[0].node_type {
        NodeType::Element(data) => {
            assert_eq!(data.get_id(), Some("".to_string()));
        }
        _ => panic!("Expected NodeType::Element"),
    }
}

#[test]
fn test_text_collapsing() {
    let nodes = parse("<a>  hello   world  </a>");

    assert_eq!(nodes.len(), 1);
    assert_eq!(nodes[0].children.len(), 1);
    assert_eq!(
        nodes[0].children[0].node_type,
        NodeType::Text("hello world ".to_string())
    );
}

#[test]
fn test_unclosed_tags_nest() {
    // Splicing is driven by close tags alone: with no closer scanned,
    // nothing is pushed onto the dangling queue, so a repeated open tag
    // stays nested under the first one.
    let nodes = parse("<p>one<p>two");

    assert_eq!(nodes.len(), 1);
    let outer = &nodes[0];
    match &outer.node_type {
        NodeType::Element(data) => assert_eq!(data.tag_name, "p"),
        _ => panic!("Expected NodeType::Element"),
    }
    assert_eq!(outer.children.len(), 2);
    assert_eq!(outer.children[0].node_type, NodeType::Text("one".to_string()));
    match &outer.children[1].node_type {
        NodeType::Element(data) => assert_eq!(data.tag_name, "p"),
        _ => panic!("Expected NodeType::Element"),
    }
    assert_eq!(
        outer.children[1].children[0].node_type,
        NodeType::Text("two".to_string())
    );
}

#[test]
fn test_empty_and_blank_input() {
    let nodes = parse("");
    assert_eq!(nodes.len(), 0);

    // Whitespace between nodes is discarded; at the end of the buffer the
    // text scanner still runs once and yields an empty text node.
    let nodes = parse("   ");
    assert_eq!(nodes.len(), 1);
    assert_eq!(nodes[0].node_type, NodeType::Text("".to_string()));
}

#[test]
fn test_termination_on_malformed_inputs() {
    // Unterminated tags, comments, and attribute values all end in a
    // partial forest instead of looping.
    let nodes = parse("<a");
    assert_eq!(nodes.len(), 1);

    let nodes = parse("<!-- never closed");
    assert_eq!(nodes.len(), 1);
    assert_eq!(
        nodes[0].node_type,
        NodeType::Comment(" never closed".to_string())
    );

    let nodes = parse("<a href='oops");
    assert_eq!(nodes.len(), 1);

    let nodes = parse("</");
    assert_eq!(nodes.len(), 0);

    let nodes = parse("<a /");
    assert_eq!(nodes.len(), 1);

    let nodes = parse("<!");
    assert_eq!(nodes.len(), 1);
    assert_eq!(nodes[0].node_type, NodeType::Comment("".to_string()));

    let nodes = parse("<a b=");
    assert_eq!(nodes.len(), 1);
}
