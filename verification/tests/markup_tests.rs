use newspipe::markup::{
    strip_html_tags_to_text, telegram_text_len_utf16_after_entities_guess, transform_html,
    DomElement, DomNode,
};

fn text(s: &str) -> DomNode {
    DomNode::Text(s.to_string())
}

fn elem(tag: &str, children: Vec<DomNode>) -> DomNode {
    DomNode::Element(DomElement { tag: tag.to_string(), attrs: Vec::new(), children })
}

fn elem_attr(tag: &str, key: &str, value: &str, children: Vec<DomNode>) -> DomNode {
    DomNode::Element(DomElement {
        tag: tag.to_string(),
        attrs: vec![(key.to_string(), value.to_string())],
        children,
    })
}

#[test]
fn strip_html_tags_basic() {
    let s = "<b>Hello</b> <a href=\"https://example.com\">world</a><br>!";
    assert_eq!(strip_html_tags_to_text(s), "Hello world !");
}

#[test]
fn telegram_len_uses_utf16() {
    // 😀 is 2 UTF-16 code units
    let s = "😀";
    assert_eq!(telegram_text_len_utf16_after_entities_guess(s), 2);
}

#[test]
fn strip_drops_tag_bodies() {
    assert_eq!(strip_html_tags_to_text("a<span class=\"x\">b</span>c"), "a b c");
}

#[test]
fn strip_collapses_whitespace() {
    assert_eq!(strip_html_tags_to_text("  a \n\n  b  "), "a b");
}

#[test]
fn telegram_len_counts_plain_chars_once() {
    assert_eq!(telegram_text_len_utf16_after_entities_guess("abc"), 3);
}

#[test]
fn transform_title_and_paragraph() {
    // <html><body><h1>Title</h1><p>Hello <b>world</b></p></body></html>
    let root = elem(
        "html",
        vec![elem(
            "body",
            vec![
                elem("h1", vec![text("Title")]),
                elem("p", vec![text("Hello "), elem("b", vec![text("world")])]),
            ],
        )],
    );
    let out = transform_html(&root).unwrap();
    assert_eq!(out, "<b>Title</b>\n\nHello <b>world</b>\n\n");
}

#[test]
fn round_trip_length_of_simple_dom() {
    // a DOM containing only <p>, <b>, <a>: the rich text, stripped back
    // to plain text, re-measures to the plain content length in UTF-16
    // code units
    let root = elem(
        "body",
        vec![elem(
            "p",
            vec![
                text("Hello "),
                elem("b", vec![text("world")]),
                elem_attr("a", "href", "https://example.com", vec![text("link")]),
            ],
        )],
    );
    let rich = transform_html(&root).unwrap();
    let plain = "Hello world link";
    assert_eq!(
        telegram_text_len_utf16_after_entities_guess(rich.as_str()),
        plain.encode_utf16().count()
    );
}

#[test]
fn round_trip_length_of_plain_paragraphs() {
    // several plain paragraphs: the stripped rich text re-measures to
    // the blocks joined by single separators
    let root = elem(
        "body",
        vec![
            elem("p", vec![text("alpha")]),
            elem("p", vec![text("beta")]),
            elem("p", vec![text("gamma")]),
        ],
    );
    let rich = transform_html(&root).unwrap();
    assert_eq!(rich, "alpha\n\nbeta\n\ngamma\n\n");
    let plain = "alpha beta gamma";
    assert_eq!(
        telegram_text_len_utf16_after_entities_guess(rich.as_str()),
        plain.encode_utf16().count()
    );
}

#[test]
fn transform_keeps_anchor_href() {
    let root = elem(
        "body",
        vec![elem("p", vec![elem_attr("a", "href", "https://example.com", vec![text("x")])])],
    );
    let out = transform_html(&root).unwrap();
    assert_eq!(out, "<a href=\"https://example.com\">x</a>\n\n");
}

#[test]
fn transform_drops_scaffolding() {
    let root = elem(
        "html",
        vec![
            elem("head", Vec::new()),
            elem("body", vec![elem("script", vec![text("evil()")]), elem("p", vec![text("ok")])]),
        ],
    );
    let out = transform_html(&root).unwrap();
    assert_eq!(out, "ok\n\n");
}

#[test]
fn transform_without_body_fails() {
    let root = elem("html", vec![elem("head", Vec::new())]);
    assert!(transform_html(&root).is_none());
}

#[test]
fn transform_collapses_newline_runs() {
    // two paragraphs where the inner div would add more breaks
    let root = elem(
        "body",
        vec![elem("div", vec![elem("p", vec![text("a")])]), elem("p", vec![text("b")])],
    );
    let out = transform_html(&root).unwrap();
    assert_eq!(out, "a\n\nb\n\n");
}
