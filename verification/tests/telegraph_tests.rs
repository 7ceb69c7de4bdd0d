use newspipe::markup::{DomElement, DomNode};
use newspipe::telegraph::{
    build_telegraph_nodes_from_html_message, telegraph_node_from_element,
    telegraph_nodes_from_children, TelegraphNode,
};

fn dom_text(s: &str) -> DomNode {
    DomNode::Text(s.to_string())
}

fn dom_elem(tag: &str, attrs: Vec<(&str, &str)>, children: Vec<DomNode>) -> DomElement {
    DomElement {
        tag: tag.to_string(),
        attrs: attrs.iter().map(|(k, v)| (k.to_string(), v.to_string())).collect(),
        children,
    }
}

fn expect_element(n: &TelegraphNode) -> &newspipe::telegraph::TelegraphElement {
    match n {
        TelegraphNode::Element(e) => e,
        TelegraphNode::Text(t) => panic!("expected an element, got text {:?}", t),
    }
}

fn expect_text(n: &TelegraphNode) -> &str {
    match n {
        TelegraphNode::Text(t) => t.as_str(),
        TelegraphNode::Element(e) => panic!("expected text, got element {:?}", e.tag),
    }
}

#[test]
fn allowed_tag_keeps_canonical_name_and_attrs() {
    let e = dom_elem("IMG", vec![("src", "https://x/i.png"), ("alt", "x")], Vec::new());
    let n = telegraph_node_from_element(&e).unwrap();
    let el = expect_element(&n);
    assert_eq!(el.tag, "img");
    assert_eq!(el.attrs, vec![("src".to_string(), "https://x/i.png".to_string())]);
    assert!(el.children.is_empty());
}

#[test]
fn anchor_keeps_href_only() {
    let e = dom_elem("a", vec![("href", "https://x"), ("target", "_blank")], vec![dom_text("go")]);
    let n = telegraph_node_from_element(&e).unwrap();
    let el = expect_element(&n);
    assert_eq!(el.tag, "a");
    assert_eq!(el.attrs, vec![("href".to_string(), "https://x".to_string())]);
    assert_eq!(expect_text(&el.children[0]), "go");
}

#[test]
fn unknown_tag_flattens_into_generic_block() {
    let e = dom_elem("article", Vec::new(), vec![dom_text("inner")]);
    let n = telegraph_node_from_element(&e).unwrap();
    let el = expect_element(&n);
    assert_eq!(el.tag, "p");
    assert!(el.attrs.is_empty());
    assert_eq!(expect_text(&el.children[0]), "inner");
}

#[test]
fn unknown_empty_tag_disappears() {
    let e = dom_elem("nav", Vec::new(), Vec::new());
    assert!(telegraph_node_from_element(&e).is_none());
}

#[test]
fn whitespace_between_inline_nodes_becomes_one_space() {
    let parent = dom_elem(
        "p",
        Vec::new(),
        vec![
            DomNode::Element(dom_elem("b", Vec::new(), vec![dom_text("x")])),
            dom_text("   "),
            DomNode::Element(dom_elem("i", Vec::new(), vec![dom_text("y")])),
        ],
    );
    let nodes = telegraph_nodes_from_children(&parent);
    assert_eq!(nodes.len(), 3);
    assert_eq!(expect_element(&nodes[0]).tag, "b");
    assert_eq!(expect_text(&nodes[1]), " ");
    assert_eq!(expect_element(&nodes[2]).tag, "i");
}

#[test]
fn leading_whitespace_text_is_dropped() {
    let parent = dom_elem(
        "p",
        Vec::new(),
        vec![dom_text("  "), DomNode::Element(dom_elem("b", Vec::new(), vec![dom_text("x")]))],
    );
    let nodes = telegraph_nodes_from_children(&parent);
    assert_eq!(nodes.len(), 1);
    assert_eq!(expect_element(&nodes[0]).tag, "b");
}

#[test]
fn message_paragraphs_become_blocks() {
    let nodes = build_telegraph_nodes_from_html_message(
        "<b>Title</b>\n\nHello <b>world</b>\n\n",
    );
    assert_eq!(nodes.len(), 3);
    let p1 = expect_element(&nodes[0]);
    assert_eq!(p1.tag, "p");
    let b1 = expect_element(&p1.children[0]);
    assert_eq!(b1.tag, "b");
    assert_eq!(expect_text(&b1.children[0]), "Title");

    assert_eq!(expect_text(&nodes[1]), " ");

    let p2 = expect_element(&nodes[2]);
    assert_eq!(p2.tag, "p");
    assert_eq!(expect_text(&p2.children[0]), "Hello ");
    let b2 = expect_element(&p2.children[1]);
    assert_eq!(b2.tag, "b");
    assert_eq!(expect_text(&b2.children[0]), "world");
}

#[test]
fn message_anchor_survives_with_href() {
    let nodes = build_telegraph_nodes_from_html_message(
        "see <a href=\"https://example.com\">this</a>",
    );
    assert_eq!(nodes.len(), 1);
    let p = expect_element(&nodes[0]);
    assert_eq!(expect_text(&p.children[0]), "see ");
    let a = expect_element(&p.children[1]);
    assert_eq!(a.tag, "a");
    assert_eq!(a.attrs, vec![("href".to_string(), "https://example.com".to_string())]);
    assert_eq!(expect_text(&a.children[0]), "this");
}

#[test]
fn message_single_newline_becomes_line_break() {
    let nodes = build_telegraph_nodes_from_html_message("one\ntwo");
    assert_eq!(nodes.len(), 1);
    let p = expect_element(&nodes[0]);
    assert_eq!(expect_text(&p.children[0]), "one");
    assert_eq!(expect_element(&p.children[1]).tag, "br");
    assert_eq!(expect_text(&p.children[2]), "two");
}

#[test]
fn empty_paragraphs_are_skipped() {
    let nodes = build_telegraph_nodes_from_html_message("\n\n  \n\nonly");
    assert_eq!(nodes.len(), 1);
    let p = expect_element(&nodes[0]);
    assert_eq!(expect_text(&p.children[0]), "only");
}

#[test]
fn stray_close_tag_is_dropped() {
    let nodes = build_telegraph_nodes_from_html_message("x</b>y");
    assert_eq!(nodes.len(), 1);
    let p = expect_element(&nodes[0]);
    assert_eq!(p.children.len(), 2);
    assert_eq!(expect_text(&p.children[0]), "x");
    assert_eq!(expect_text(&p.children[1]), "y");
}

#[test]
fn lone_angle_bracket_stands_as_text() {
    let nodes = build_telegraph_nodes_from_html_message("a < b");
    assert_eq!(nodes.len(), 1);
    let p = expect_element(&nodes[0]);
    assert_eq!(p.children.len(), 3);
    assert_eq!(expect_text(&p.children[0]), "a ");
    assert_eq!(expect_text(&p.children[1]), "<");
    assert_eq!(expect_text(&p.children[2]), " b");
}
