//! Conversion of content into the constrained node tree of the long-form
//! fallback surface: a small tag allow-list, only `href` and `src`
//! attributes survive, unknown tags flatten into a generic block, and the
//! short-form rich text is re-read paragraph by paragraph.

use vstd::prelude::*;
use crate::chars::{
    chars_of, char_is_space, eq_ci, eq_ci_of, find_first, first_match_from, is_space,
    lemma_first_match_found, lemma_first_match_none, match_at, prefix_at, string_of, sub_vec,
    trim, trim_of,
};
use crate::markup::{DomElement, DomNode};
use vstd::string::StringExecFns;

verus! {

/// The ghost form of a parsed HTML node.
pub enum DomNodeView {
    Text(Seq<char>),
    Element(DomElemView),
}

/// The ghost form of a parsed HTML element.
pub struct DomElemView {
    pub tag: Seq<char>,
    pub attrs: Seq<(Seq<char>, Seq<char>)>,
    pub children: Seq<DomNodeView>,
}

pub open spec fn attrs_view(attrs: Seq<(String, String)>) -> Seq<(Seq<char>, Seq<char>)> {
    Seq::new(attrs.len(), |i: int| (attrs[i].0@, attrs[i].1@))
}

pub open spec fn dom_node_view(n: DomNode) -> DomNodeView
    decreases n,
{
    match n {
        DomNode::Text(t) => DomNodeView::Text(t@),
        DomNode::Element(e) => DomNodeView::Element(dom_elem_view(e)),
    }
}

pub open spec fn dom_elem_view(e: DomElement) -> DomElemView
    decreases e,
{
    DomElemView { tag: e.tag@, attrs: attrs_view(e.attrs@), children: dom_nodes_view(e.children@) }
}

pub open spec fn dom_nodes_view(cs: Seq<DomNode>) -> Seq<DomNodeView>
    decreases cs,
{
    if cs.len() == 0 {
        Seq::empty()
    } else {
        dom_nodes_view(cs.drop_last()).push(dom_node_view(cs.last()))
    }
}

/// A node of the long-form surface: text, or an element of the allowed
/// tag set with at most `href` and `src` attributes.
pub enum TelegraphNode {
    Text(String),
    Element(TelegraphElement),
}

/// An element node of the long-form surface.
pub struct TelegraphElement {
    pub tag: String,
    pub attrs: Vec<(String, String)>,
    pub children: Vec<TelegraphNode>,
}

/// The ghost form of a long-form node.
pub enum TgNodeView {
    Text(Seq<char>),
    Element(TgElemView),
}

/// The ghost form of a long-form element.
pub struct TgElemView {
    pub tag: Seq<char>,
    pub attrs: Seq<(Seq<char>, Seq<char>)>,
    pub children: Seq<TgNodeView>,
}

pub open spec fn tg_node_view(n: TelegraphNode) -> TgNodeView
    decreases n,
{
    match n {
        TelegraphNode::Text(t) => TgNodeView::Text(t@),
        TelegraphNode::Element(e) => TgNodeView::Element(tg_elem_view(e)),
    }
}

pub open spec fn tg_elem_view(e: TelegraphElement) -> TgElemView
    decreases e,
{
    TgElemView { tag: e.tag@, attrs: attrs_view(e.attrs@), children: tg_nodes_view(e.children@) }
}

pub open spec fn tg_nodes_view(cs: Seq<TelegraphNode>) -> Seq<TgNodeView>
    decreases cs,
{
    if cs.len() == 0 {
        Seq::empty()
    } else {
        tg_nodes_view(cs.drop_last()).push(tg_node_view(cs.last()))
    }
}

pub proof fn lemma_tg_nodes_view_len(cs: Seq<TelegraphNode>)
    ensures
        tg_nodes_view(cs).len() == cs.len(),
    decreases cs,
{
    if cs.len() > 0 {
        lemma_tg_nodes_view_len(cs.drop_last());
    }
}

pub proof fn lemma_tg_nodes_view_push(cs: Seq<TelegraphNode>, n: TelegraphNode)
    ensures
        tg_nodes_view(cs.push(n)) == tg_nodes_view(cs).push(tg_node_view(n)),
{
    assert(cs.push(n).drop_last() =~= cs);
    assert(cs.push(n).last() == n);
}

pub proof fn lemma_dom_nodes_view_push(cs: Seq<DomNode>, n: DomNode)
    ensures
        dom_nodes_view(cs.push(n)) == dom_nodes_view(cs).push(dom_node_view(n)),
{
    assert(cs.push(n).drop_last() =~= cs);
    assert(cs.push(n).last() == n);
}

pub proof fn lemma_dom_nodes_view_len(cs: Seq<DomNode>)
    ensures
        dom_nodes_view(cs).len() == cs.len(),
    decreases cs,
{
    if cs.len() > 0 {
        lemma_dom_nodes_view_len(cs.drop_last());
    }
}

pub proof fn lemma_dom_nodes_view_index(cs: Seq<DomNode>, i: int)
    requires
        0 <= i < cs.len(),
    ensures
        dom_nodes_view(cs).len() == cs.len(),
        dom_nodes_view(cs)[i] == dom_node_view(cs[i]),
    decreases cs,
{
    lemma_dom_nodes_view_len(cs);
    if i < cs.len() - 1 {
        lemma_dom_nodes_view_index(cs.drop_last(), i);
        assert(cs.drop_last()[i] == cs[i]);
    }
}

pub proof fn lemma_dom_nodes_view_concat(a: Seq<DomNode>, b: Seq<DomNode>)
    ensures
        dom_nodes_view(a + b) == dom_nodes_view(a) + dom_nodes_view(b),
    decreases b,
{
    if b.len() == 0 {
        assert(a + b =~= a);
        assert(dom_nodes_view(a) + dom_nodes_view(b) =~= dom_nodes_view(a));
    } else {
        assert((a + b).drop_last() =~= a + b.drop_last());
        assert((a + b).last() == b.last());
        lemma_dom_nodes_view_concat(a, b.drop_last());
        lemma_dom_nodes_view_push(a + b.drop_last(), b.last());
        assert(dom_nodes_view(a) + dom_nodes_view(b) =~= (dom_nodes_view(a) + dom_nodes_view(
            b.drop_last(),
        )).push(dom_node_view(b.last())));
    }
}

/// The value of the first attribute named `key`, from position `i`.
pub open spec fn spec_attr_v(
    attrs: Seq<(Seq<char>, Seq<char>)>,
    key: Seq<char>,
    i: int,
) -> Option<Seq<char>>
    decreases attrs.len() - i,
{
    if i < 0 || i >= attrs.len() {
        None
    } else if attrs[i].0 == key {
        Some(attrs[i].1)
    } else {
        spec_attr_v(attrs, key, i + 1)
    }
}

/// The allowed long-form tag that `t` names, without regard to ASCII
/// case, in its canonical lower-case form.
pub open spec fn spec_matched_tag(t: Seq<char>) -> Option<Seq<char>> {
    if eq_ci(t, "a"@) {
        Some("a"@)
    } else if eq_ci(t, "aside"@) {
        Some("aside"@)
    } else if eq_ci(t, "b"@) {
        Some("b"@)
    } else if eq_ci(t, "blockquote"@) {
        Some("blockquote"@)
    } else if eq_ci(t, "br"@) {
        Some("br"@)
    } else if eq_ci(t, "code"@) {
        Some("code"@)
    } else if eq_ci(t, "em"@) {
        Some("em"@)
    } else if eq_ci(t, "figcaption"@) {
        Some("figcaption"@)
    } else if eq_ci(t, "figure"@) {
        Some("figure"@)
    } else if eq_ci(t, "h3"@) {
        Some("h3"@)
    } else if eq_ci(t, "h4"@) {
        Some("h4"@)
    } else if eq_ci(t, "hr"@) {
        Some("hr"@)
    } else if eq_ci(t, "i"@) {
        Some("i"@)
    } else if eq_ci(t, "iframe"@) {
        Some("iframe"@)
    } else if eq_ci(t, "img"@) {
        Some("img"@)
    } else if eq_ci(t, "li"@) {
        Some("li"@)
    } else if eq_ci(t, "ol"@) {
        Some("ol"@)
    } else if eq_ci(t, "p"@) {
        Some("p"@)
    } else if eq_ci(t, "pre"@) {
        Some("pre"@)
    } else if eq_ci(t, "s"@) {
        Some("s"@)
    } else if eq_ci(t, "strong"@) {
        Some("strong"@)
    } else if eq_ci(t, "u"@) {
        Some("u"@)
    } else if eq_ci(t, "ul"@) {
        Some("ul"@)
    } else if eq_ci(t, "video"@) {
        Some("video"@)
    } else {
        None
    }
}

/// The attributes that survive: the first `href` and the first `src`, in
/// that order.
pub open spec fn spec_kept_attrs(attrs: Seq<(Seq<char>, Seq<char>)>) -> Seq<(Seq<char>, Seq<char>)> {
    (match spec_attr_v(attrs, "href"@, 0) {
        Some(h) => seq![("href"@, h)],
        None => Seq::empty(),
    }) + (match spec_attr_v(attrs, "src"@, 0) {
        Some(s) => seq![("src"@, s)],
        None => Seq::empty(),
    })
}

/// The long-form node of one parsed element: an allowed tag keeps its
/// canonical name, its surviving attributes and its converted children;
/// an unknown tag flattens to its converted children wrapped in the
/// generic block tag, or to nothing when they are empty.
pub open spec fn spec_tg_element(e: DomElemView) -> Option<TgNodeView>
    decreases e, 1int,
{
    let kids = spec_tg_children(e.children, 0, Seq::empty(), true);
    match spec_matched_tag(e.tag) {
        Some(canon) => Some(
            TgNodeView::Element(
                TgElemView { tag: canon, attrs: spec_kept_attrs(e.attrs), children: kids },
            ),
        ),
        None => if kids.len() == 0 {
            None
        } else {
            Some(TgNodeView::Element(TgElemView { tag: "p"@, attrs: Seq::empty(), children: kids }))
        },
    }
}

/// The long-form nodes of the children from position `i` on, folded onto
/// `acc`: empty text is dropped, white-space-only text becomes a single
/// space between nodes, other text passes through, and elements convert
/// by their tag.
pub open spec fn spec_tg_children(
    cs: Seq<DomNodeView>,
    i: int,
    acc: Seq<TgNodeView>,
    last_space: bool,
) -> Seq<TgNodeView>
    decreases cs, cs.len() - i, 0int,
{
    if i < 0 || i >= cs.len() {
        acc
    } else {
        match cs[i] {
            DomNodeView::Text(raw) => {
                if raw.len() == 0 {
                    spec_tg_children(cs, i + 1, acc, last_space)
                } else if trim_of(raw).len() == 0 {
                    if acc.len() > 0 && !last_space {
                        spec_tg_children(cs, i + 1, acc.push(TgNodeView::Text(" "@)), true)
                    } else {
                        spec_tg_children(cs, i + 1, acc, last_space)
                    }
                } else {
                    spec_tg_children(cs, i + 1, acc.push(TgNodeView::Text(raw)), is_space(raw.last()))
                }
            },
            DomNodeView::Element(e) => {
                match spec_tg_element(e) {
                    Some(nv) => spec_tg_children(cs, i + 1, acc.push(nv), false),
                    None => spec_tg_children(cs, i + 1, acc, last_space),
                }
            },
        }
    }
}

/// The canonical form of an allowed tag, or nothing for an unknown one.
fn match_tag(tag: &str) -> (r: Option<String>)
    ensures
        match r {
            Some(l) => spec_matched_tag(tag@) == Some(l@),
            None => spec_matched_tag(tag@) is None,
        },
{
    let t = chars_of(tag);
    if eq_ci_of(&t, &chars_of("a")) {
        Some(String::from_str("a"))
    } else if eq_ci_of(&t, &chars_of("aside")) {
        Some(String::from_str("aside"))
    } else if eq_ci_of(&t, &chars_of("b")) {
        Some(String::from_str("b"))
    } else if eq_ci_of(&t, &chars_of("blockquote")) {
        Some(String::from_str("blockquote"))
    } else if eq_ci_of(&t, &chars_of("br")) {
        Some(String::from_str("br"))
    } else if eq_ci_of(&t, &chars_of("code")) {
        Some(String::from_str("code"))
    } else if eq_ci_of(&t, &chars_of("em")) {
        Some(String::from_str("em"))
    } else if eq_ci_of(&t, &chars_of("figcaption")) {
        Some(String::from_str("figcaption"))
    } else if eq_ci_of(&t, &chars_of("figure")) {
        Some(String::from_str("figure"))
    } else if eq_ci_of(&t, &chars_of("h3")) {
        Some(String::from_str("h3"))
    } else if eq_ci_of(&t, &chars_of("h4")) {
        Some(String::from_str("h4"))
    } else if eq_ci_of(&t, &chars_of("hr")) {
        Some(String::from_str("hr"))
    } else if eq_ci_of(&t, &chars_of("i")) {
        Some(String::from_str("i"))
    } else if eq_ci_of(&t, &chars_of("iframe")) {
        Some(String::from_str("iframe"))
    } else if eq_ci_of(&t, &chars_of("img")) {
        Some(String::from_str("img"))
    } else if eq_ci_of(&t, &chars_of("li")) {
        Some(String::from_str("li"))
    } else if eq_ci_of(&t, &chars_of("ol")) {
        Some(String::from_str("ol"))
    } else if eq_ci_of(&t, &chars_of("p")) {
        Some(String::from_str("p"))
    } else if eq_ci_of(&t, &chars_of("pre")) {
        Some(String::from_str("pre"))
    } else if eq_ci_of(&t, &chars_of("s")) {
        Some(String::from_str("s"))
    } else if eq_ci_of(&t, &chars_of("strong")) {
        Some(String::from_str("strong"))
    } else if eq_ci_of(&t, &chars_of("u")) {
        Some(String::from_str("u"))
    } else if eq_ci_of(&t, &chars_of("ul")) {
        Some(String::from_str("ul"))
    } else if eq_ci_of(&t, &chars_of("video")) {
        Some(String::from_str("video"))
    } else {
        None
    }
}

proof fn lemma_attr_v_of_attrs(attrs: Seq<(String, String)>, key: Seq<char>, i: int)
    ensures
        spec_attr_v(attrs_view(attrs), key, i) == crate::markup::spec_attr(attrs, key, i),
    decreases attrs.len() - i,
{
    if 0 <= i < attrs.len() {
        lemma_attr_v_of_attrs(attrs, key, i + 1);
    }
}

/// The surviving attributes of an element: its first `href` and first
/// `src` values, under those names.
fn kept_attrs(attrs: &Vec<(String, String)>) -> (r: Vec<(String, String)>)
    ensures
        attrs_view(r@) == spec_kept_attrs(attrs_view(attrs@)),
{
    let mut r: Vec<(String, String)> = Vec::new();
    proof {
        lemma_attr_v_of_attrs(attrs@, "href"@, 0);
        lemma_attr_v_of_attrs(attrs@, "src"@, 0);
    }
    match crate::markup::find_attr(attrs, "href") {
        Some(h) => {
            r.push((String::from_str("href"), h.clone()));
        },
        None => {},
    }
    match crate::markup::find_attr(attrs, "src") {
        Some(s) => {
            r.push((String::from_str("src"), s.clone()));
        },
        None => {},
    }
    proof {
        assert(attrs_view(r@) =~= spec_kept_attrs(attrs_view(attrs@)));
    }
    r
}

/// Converts one parsed element to a long-form node: allowed tags keep
/// their canonical name and surviving attributes; unknown tags flatten to
/// their children wrapped in the generic block tag, or to nothing.
pub fn telegraph_node_from_element(element: &DomElement) -> (r: Option<TelegraphNode>)
    ensures
        match r {
            Some(n) => spec_tg_element(dom_elem_view(*element)) == Some(tg_node_view(n)),
            None => spec_tg_element(dom_elem_view(*element)) is None,
        },
    decreases *element, 1int,
{
    let children = telegraph_nodes_from_children(element);
    match match_tag(element.tag.as_str()) {
        Some(canon) => {
            let attrs = kept_attrs(&element.attrs);
            Some(TelegraphNode::Element(TelegraphElement { tag: canon, attrs, children }))
        },
        None => {
            if children.len() == 0 {
                proof {
                    assert(tg_nodes_view(children@) =~= Seq::<TgNodeView>::empty());
                }
                None
            } else {
                proof {
                    assert(attrs_view(Seq::<(String, String)>::empty()) =~= Seq::<
                        (Seq<char>, Seq<char>),
                    >::empty());
                }
                Some(
                    TelegraphNode::Element(
                        TelegraphElement {
                            tag: String::from_str("p"),
                            attrs: Vec::new(),
                            children,
                        },
                    ),
                )
            }
        },
    }
}

/// Converts the element's children to long-form nodes, in order.
pub fn telegraph_nodes_from_children(element: &DomElement) -> (r: Vec<TelegraphNode>)
    ensures
        tg_nodes_view(r@) == spec_tg_children(
            dom_nodes_view(element.children@),
            0,
            Seq::empty(),
            true,
        ),
    decreases *element, 0int,
{
    let n = element.children.len();
    let ghost cs = dom_nodes_view(element.children@);
    let mut out: Vec<TelegraphNode> = Vec::new();
    let mut last_space = true;
    let mut i: usize = 0;
    proof {
        lemma_dom_nodes_view_len(element.children@);
        assert(tg_nodes_view(out@) =~= Seq::<TgNodeView>::empty());
    }
    while i < n
        invariant
            i <= n,
            n == element.children@.len(),
            cs == dom_nodes_view(element.children@),
            cs.len() == n,
            spec_tg_children(cs, 0, Seq::empty(), true) == spec_tg_children(
                cs,
                i as int,
                tg_nodes_view(out@),
                last_space,
            ),
        decreases n - i,
    {
        proof {
            lemma_dom_nodes_view_index(element.children@, i as int);
            lemma_tg_nodes_view_len(out@);
        }
        let ghost acc = tg_nodes_view(out@);
        let ghost ls0 = last_space;
        let node = &element.children[i];
        match node {
            DomNode::Text(text) => {
                let tv = chars_of(text.as_str());
                if tv.len() == 0 {
                } else {
                    let tt = trim(&tv);
                    if tt.len() == 0 {
                        if out.len() > 0 && !last_space {
                            let tn = TelegraphNode::Text(String::from_str(" "));
                            let ghost gtn = tn;
                            let ghost before = out@;
                            out.push(tn);
                            last_space = true;
                            proof {
                                lemma_tg_nodes_view_push(before, gtn);
                            }
                        }
                    } else {
                        let was_space = char_is_space(tv[tv.len() - 1]);
                        let tn = TelegraphNode::Text(text.clone());
                        let ghost gtn = tn;
                        let ghost before = out@;
                        out.push(tn);
                        last_space = was_space;
                        proof {
                            lemma_tg_nodes_view_push(before, gtn);
                        }
                    }
                }
            },
            DomNode::Element(child) => {
                match telegraph_node_from_element(child) {
                    Some(tn) => {
                        let ghost gtn = tn;
                        let ghost before = out@;
                        out.push(tn);
                        last_space = false;
                        proof {
                            lemma_tg_nodes_view_push(before, gtn);
                        }
                    },
                    None => {},
                }
            },
        }
        i = i + 1;
    }
    out
}


/// What a nested inline parse may stop on: the end of input, or the
/// close tag of the surrounding bold or anchor element.
#[derive(Clone, Copy, Debug, PartialEq, Eq, Structural)]
pub enum InlineStop {
    AtEnd,
    CloseBold,
    CloseAnchor,
}

pub open spec fn stop_view(st: InlineStop) -> Option<Seq<char>> {
    match st {
        InlineStop::AtEnd => None,
        InlineStop::CloseBold => Some("</b>"@),
        InlineStop::CloseAnchor => Some("</a>"@),
    }
}

/// The end of the text run starting at `i`: the next angle bracket or
/// newline, or the end of input.
pub open spec fn text_run_end(s: Seq<char>, i: int) -> int
    decreases s.len() - i,
{
    if i < 0 || i >= s.len() || s[i] == '<' || s[i] == '\n' {
        i
    } else {
        text_run_end(s, i + 1)
    }
}

pub proof fn lemma_text_run_end_bounds(s: Seq<char>, i: int)
    requires
        0 <= i <= s.len(),
    ensures
        i <= text_run_end(s, i) <= s.len(),
    decreases s.len() - i,
{
    if !(i >= s.len() || s[i] == '<' || s[i] == '\n') {
        lemma_text_run_end_bounds(s, i + 1);
    }
}

pub open spec fn br_view() -> DomNodeView {
    DomNodeView::Element(DomElemView { tag: "br"@, attrs: Seq::empty(), children: Seq::empty() })
}

/// The position the parse continues from after a nested element, kept in
/// range; along every real parse it equals the nested parse's own end.
pub open spec fn parse_cont(s: Seq<char>, pos: int, p2: int) -> int {
    if p2 <= pos {
        pos + 1
    } else if p2 > s.len() {
        s.len() as int
    } else {
        p2
    }
}

/// The parse of the constrained rich-text markup from `pos` up to the
/// stop tag or the end: the nodes read and the position after them. The
/// grammar is the one the rich-text converter writes: `<b>`,
/// `<a href="...">`, `<br>`, their close tags, newlines as line breaks,
/// and text. A stray close tag is dropped; a stray angle bracket stands
/// alone as text.
pub open spec fn spec_parse_inline(s: Seq<char>, pos: int, stop: Option<Seq<char>>) -> (
    Seq<DomNodeView>,
    int,
)
    decreases s.len() - pos,
{
    if pos < 0 || pos >= s.len() {
        (Seq::empty(), pos)
    } else if match stop {
        Some(st) => match_at(s, st, pos),
        None => false,
    } {
        (Seq::empty(), pos + stop->Some_0.len())
    } else if match_at(s, "<br>"@, pos) {
        let r = spec_parse_inline(s, parse_cont(s, pos, pos + 4), stop);
        (seq![br_view()] + r.0, r.1)
    } else if match_at(s, "<b>"@, pos) {
        let kids = spec_parse_inline(s, parse_cont(s, pos, pos + 3), Some("</b>"@));
        let cont = parse_cont(s, pos, kids.1);
        let r = spec_parse_inline(s, cont, stop);
        (
            seq![
                DomNodeView::Element(
                    DomElemView { tag: "b"@, attrs: Seq::empty(), children: kids.0 },
                ),
            ] + r.0,
            r.1,
        )
    } else if match_at(s, "<a href=\""@, pos) {
        match first_match_from(s, "\""@, pos + 9) {
            Some(q) => if q + 1 < s.len() && s[q + 1] == '>' {
                let url = s.subrange(pos + 9, q);
                let kids = spec_parse_inline(s, parse_cont(s, pos, q + 2), Some("</a>"@));
                let cont = parse_cont(s, pos, kids.1);
                let r = spec_parse_inline(s, cont, stop);
                (
                    seq![
                        DomNodeView::Element(
                            DomElemView {
                                tag: "a"@,
                                attrs: seq![("href"@, url)],
                                children: kids.0,
                            },
                        ),
                    ] + r.0,
                    r.1,
                )
            } else {
                let r = spec_parse_inline(s, pos + 1, stop);
                (seq![DomNodeView::Text("<"@)] + r.0, r.1)
            },
            None => {
                let r = spec_parse_inline(s, pos + 1, stop);
                (seq![DomNodeView::Text("<"@)] + r.0, r.1)
            },
        }
    } else if match_at(s, "</b>"@, pos) || match_at(s, "</a>"@, pos) {
        spec_parse_inline(s, parse_cont(s, pos, pos + 4), stop)
    } else if s[pos] == '<' {
        let r = spec_parse_inline(s, pos + 1, stop);
        (seq![DomNodeView::Text("<"@)] + r.0, r.1)
    } else if s[pos] == '\n' {
        let r = spec_parse_inline(s, pos + 1, stop);
        (seq![br_view()] + r.0, r.1)
    } else {
        let e0 = text_run_end(s, pos);
        let e = parse_cont(s, pos, e0);
        let r = spec_parse_inline(s, e, stop);
        (seq![DomNodeView::Text(s.subrange(pos, e))] + r.0, r.1)
    }
}

proof fn lemma_match_at_shift(s: Seq<char>, n: Seq<char>, base: int, k: int)
    requires
        0 <= base <= s.len(),
        0 <= k,
    ensures
        match_at(s.subrange(base, s.len() as int), n, k) == match_at(s, n, base + k),
{
    let tail = s.subrange(base, s.len() as int);
    if 0 <= k && k + n.len() <= tail.len() {
        assert(tail.subrange(k, k + n.len() as int) =~= s.subrange(
            base + k,
            base + k + n.len() as int,
        ));
    }
}

proof fn lemma_first_match_shift(s: Seq<char>, n: Seq<char>, base: int, r: Option<usize>)
    requires
        0 <= base <= s.len(),
        match r {
            Some(k) => crate::chars::first_match(s.subrange(base, s.len() as int), n) == Some(
                k as int,
            ) && match_at(s.subrange(base, s.len() as int), n, k as int),
            None => crate::chars::first_match(s.subrange(base, s.len() as int), n) is None,
        },
    ensures
        match r {
            Some(k) => first_match_from(s, n, base) == Some(base + k) && match_at(
                s,
                n,
                base + k,
            ),
            None => first_match_from(s, n, base) is None,
        },
{
    let tail = s.subrange(base, s.len() as int);
    crate::chars::lemma_first_match_from_inv(tail, n, 0);
    match r {
        Some(k) => {
            lemma_match_at_shift(s, n, base, k as int);
            assert forall|j: int| base <= j < base + k implies !match_at(s, n, j) by {
                lemma_match_at_shift(s, n, base, j - base);
            }
            lemma_first_match_found(s, n, base, base + k);
        },
        None => {
            assert forall|j: int| base <= j implies !match_at(s, n, j) by {
                lemma_match_at_shift(s, n, base, j - base);
            }
            lemma_first_match_none(s, n, base);
        },
    }
}

fn cons_node(node: DomNode, rest: Vec<DomNode>) -> (r: Vec<DomNode>)
    ensures
        r@ == seq![node] + rest@,
{
    let mut r: Vec<DomNode> = Vec::new();
    r.push(node);
    proof {
        assert(r@ =~= seq![node]);
    }
    let mut tail = rest;
    r.append(&mut tail);
    r
}

proof fn lemma_dom_view_cons(node: DomNode, rest: Seq<DomNode>)
    ensures
        dom_nodes_view(seq![node] + rest) == seq![dom_node_view(node)] + dom_nodes_view(rest),
{
    assert(dom_nodes_view(seq![node]) =~= seq![dom_node_view(node)]) by {
        assert(seq![node].drop_last() =~= Seq::<DomNode>::empty());
        assert(seq![node].last() == node);
        assert(dom_nodes_view(Seq::<DomNode>::empty()).push(dom_node_view(node)) =~= seq![
            dom_node_view(node),
        ]);
    }
    lemma_dom_nodes_view_concat(seq![node], rest);
}

/// Parses the constrained rich-text markup from `pos`, stopping at the
/// given close tag or the end of input.
fn parse_inline_nodes(s: &Vec<char>, pos: usize, stop: InlineStop) -> (r: (Vec<DomNode>, usize))
    requires
        pos <= s@.len(),
    ensures
        ({
            let sp = spec_parse_inline(s@, pos as int, stop_view(stop));
            dom_nodes_view(r.0@) == sp.0 && r.1 as int == sp.1 && pos <= r.1 <= s@.len()
        }),
    decreases s@.len() - pos,
{
    proof {
        reveal_strlit("</b>");
        reveal_strlit("</a>");
        reveal_strlit("<br>");
        reveal_strlit("<b>");
        reveal_strlit("<a href=\"");
        reveal_strlit("\"");
        reveal_strlit("<");
        reveal_strlit("br");
        reveal_strlit("b");
        reveal_strlit("a");
        reveal_strlit("href");
    }
    let n = s.len();
    if pos >= n {
        proof {
            assert(dom_nodes_view(Seq::<DomNode>::empty()) =~= Seq::<DomNodeView>::empty());
        }
        return (Vec::new(), pos);
    }
    let stopped = match stop {
        InlineStop::AtEnd => false,
        InlineStop::CloseBold => prefix_at(s, &chars_of("</b>"), pos),
        InlineStop::CloseAnchor => prefix_at(s, &chars_of("</a>"), pos),
    };
    if stopped {
        proof {
            assert(dom_nodes_view(Seq::<DomNode>::empty()) =~= Seq::<DomNodeView>::empty());
        }
        return (Vec::new(), pos + 4);
    }
    if prefix_at(s, &chars_of("<br>"), pos) {
        let (rest, next) = parse_inline_nodes(s, pos + 4, stop);
        let node = DomNode::Element(
            DomElement { tag: String::from_str("br"), attrs: Vec::new(), children: Vec::new() },
        );
        let ghost gnode = node;
        let ghost grest = rest@;
        let out = cons_node(node, rest);
        proof {
            lemma_dom_view_cons(gnode, grest);
            assert(attrs_view(Seq::<(String, String)>::empty()) =~= Seq::<
                (Seq<char>, Seq<char>),
            >::empty());
            assert(dom_nodes_view(Seq::<DomNode>::empty()) =~= Seq::<DomNodeView>::empty());
            assert(dom_node_view(gnode) == br_view());
        }
        return (out, next);
    }
    if prefix_at(s, &chars_of("<b>"), pos) {
        let (kids, p2) = parse_inline_nodes(s, pos + 3, InlineStop::CloseBold);
        let (rest, next) = parse_inline_nodes(s, p2, stop);
        let node = DomNode::Element(
            DomElement { tag: String::from_str("b"), attrs: Vec::new(), children: kids },
        );
        let ghost gnode = node;
        let ghost grest = rest@;
        let out = cons_node(node, rest);
        proof {
            lemma_dom_view_cons(gnode, grest);
            assert(attrs_view(Seq::<(String, String)>::empty()) =~= Seq::<
                (Seq<char>, Seq<char>),
            >::empty());
        }
        return (out, next);
    }
    if prefix_at(s, &chars_of("<a href=\""), pos) {
        let tail = sub_vec(s, pos + 9, n);
        let qr = find_first(&tail, &chars_of("\""));
        proof {
            lemma_first_match_shift(s@, "\""@, pos + 9, qr);
        }
        if let Some(krel) = qr {
            let q = pos + 9 + krel;
            if q + 1 < n && s[q + 1] == '>' {
                let url = sub_vec(s, pos + 9, q);
                let (kids, p2) = parse_inline_nodes(s, q + 2, InlineStop::CloseAnchor);
                let (rest, next) = parse_inline_nodes(s, p2, stop);
                let mut attrs: Vec<(String, String)> = Vec::new();
                attrs.push((String::from_str("href"), string_of(&url)));
                let ghost gattrs = attrs@;
                let node = DomNode::Element(
                    DomElement { tag: String::from_str("a"), attrs, children: kids },
                );
                let ghost gnode = node;
                let ghost grest = rest@;
                let out = cons_node(node, rest);
                proof {
                    lemma_dom_view_cons(gnode, grest);
                    assert(attrs_view(gattrs) =~= seq![("href"@, s@.subrange(pos + 9, q as int))]);
                }
                return (out, next);
            }
        }
        let (rest, next) = parse_inline_nodes(s, pos + 1, stop);
        let node = DomNode::Text(String::from_str("<"));
        let ghost gnode = node;
        let ghost grest = rest@;
        let out = cons_node(node, rest);
        proof {
            lemma_dom_view_cons(gnode, grest);
        }
        return (out, next);
    }
    if prefix_at(s, &chars_of("</b>"), pos) || prefix_at(s, &chars_of("</a>"), pos) {
        return parse_inline_nodes(s, pos + 4, stop);
    }
    let c = s[pos];
    if c == '<' {
        let (rest, next) = parse_inline_nodes(s, pos + 1, stop);
        let node = DomNode::Text(String::from_str("<"));
        let ghost gnode = node;
        let ghost grest = rest@;
        let out = cons_node(node, rest);
        proof {
            lemma_dom_view_cons(gnode, grest);
        }
        return (out, next);
    }
    if c == '\n' {
        let (rest, next) = parse_inline_nodes(s, pos + 1, stop);
        let node = DomNode::Element(
            DomElement { tag: String::from_str("br"), attrs: Vec::new(), children: Vec::new() },
        );
        let ghost gnode = node;
        let ghost grest = rest@;
        let out = cons_node(node, rest);
        proof {
            lemma_dom_view_cons(gnode, grest);
            assert(attrs_view(Seq::<(String, String)>::empty()) =~= Seq::<
                (Seq<char>, Seq<char>),
            >::empty());
            assert(dom_nodes_view(Seq::<DomNode>::empty()) =~= Seq::<DomNodeView>::empty());
            assert(dom_node_view(gnode) == br_view());
        }
        return (out, next);
    }
    let mut e: usize = pos;
    while e < n && s[e] != '<' && s[e] != '\n'
        invariant
            pos <= e <= n,
            n == s@.len(),
            text_run_end(s@, pos as int) == text_run_end(s@, e as int),
        decreases n - e,
    {
        e = e + 1;
    }
    proof {
        assert(text_run_end(s@, e as int) == e as int);
        assert(parse_cont(s@, pos as int, e as int) == e as int);
    }
    let run = sub_vec(s, pos, e);
    let (rest, next) = parse_inline_nodes(s, e, stop);
    let node = DomNode::Text(string_of(&run));
    let ghost gnode = node;
    let ghost grest = rest@;
    let out = cons_node(node, rest);
    proof {
        lemma_dom_view_cons(gnode, grest);
    }
    (out, next)
}

/// The segments of `s` between double line breaks, from position `i`.
pub open spec fn spec_split2(s: Seq<char>, i: int) -> Seq<Seq<char>>
    decreases s.len() - i + 1,
{
    if i < 0 || i > s.len() {
        Seq::empty()
    } else {
        match first_match_from(s, "\n\n"@, i) {
            Some(j) => {
                let nxt0 = if j + 2 <= i {
                    i + 1
                } else {
                    j + 2
                };
                let nxt = if nxt0 > s.len() + 1 {
                    s.len() as int + 1
                } else {
                    nxt0
                };
                seq![s.subrange(i, j)] + spec_split2(s, nxt)
            },
            None => seq![s.subrange(i, s.len() as int)],
        }
    }
}

pub open spec fn paras_view(ps: Seq<Vec<char>>) -> Seq<Seq<char>> {
    Seq::new(ps.len(), |i: int| ps[i]@)
}

/// Splits the message into its paragraphs at double line breaks.
fn split_paragraphs(v: &Vec<char>) -> (r: Vec<Vec<char>>)
    ensures
        paras_view(r@) == spec_split2(v@, 0),
{
    let n = v.len();
    let sep = chars_of("\n\n");
    proof {
        reveal_strlit("\n\n");
    }
    let mut out: Vec<Vec<char>> = Vec::new();
    let mut i: usize = 0;
    proof {
        assert(paras_view(out@) =~= Seq::<Seq<char>>::empty());
    }
    loop
        invariant_except_break
            i <= n,
            n == v@.len(),
            sep@ == "\n\n"@,
            spec_split2(v@, 0) == paras_view(out@) + spec_split2(v@, i as int),
        ensures
            paras_view(out@) == spec_split2(v@, 0),
        decreases n - i,
    {
        proof {
            reveal_strlit("\n\n");
        }
        let ghost before = paras_view(out@);
        let tail = sub_vec(v, i, n);
        let fr = find_first(&tail, &sep);
        proof {
            lemma_first_match_shift(v@, "\n\n"@, i as int, fr);
        }
        match fr {
            Some(k) => {
                let piece = sub_vec(v, i, i + k);
                let ghost gp = piece@;
                out.push(piece);
                proof {
                    assert(paras_view(out@) =~= before.push(gp));
                    assert(before.push(gp) =~= before + seq![gp]);
                    assert(spec_split2(v@, 0) =~= (before + seq![gp]) + spec_split2(
                        v@,
                        i + k + 2,
                    ));
                }
                i = i + k + 2;
            },
            None => {
                let piece = sub_vec(v, i, n);
                let ghost gp = piece@;
                out.push(piece);
                proof {
                    assert(paras_view(out@) =~= before.push(gp));
                    assert(before.push(gp) =~= before + seq![gp]);
                }
                break ;
            },
        }
    }
    out
}

/// The document tree that the message's paragraphs form: each non-empty
/// trimmed paragraph becomes a block element holding its parsed inline
/// content, with a line-break text node between consecutive blocks.
pub open spec fn spec_build_dom_from(paras: Seq<Seq<char>>, k: int) -> Seq<DomNodeView>
    decreases paras.len() - k,
{
    if k < 0 || k >= paras.len() {
        Seq::empty()
    } else {
        let t = trim_of(paras[k]);
        let rest = spec_build_dom_from(paras, k + 1);
        if t.len() == 0 {
            rest
        } else {
            let p = DomNodeView::Element(
                DomElemView {
                    tag: "p"@,
                    attrs: Seq::empty(),
                    children: spec_parse_inline(t, 0, None).0,
                },
            );
            let sep = if k > 0 {
                seq![DomNodeView::Text("\n"@)]
            } else {
                Seq::<DomNodeView>::empty()
            };
            sep + seq![p] + rest
        }
    }
}

/// The document tree of the whole message.
pub open spec fn spec_build_dom(s: Seq<char>) -> Seq<DomNodeView> {
    spec_build_dom_from(spec_split2(s, 0), 0)
}

/// Re-reads a rich-text message as a long-form node tree: the message is
/// split into paragraphs at double line breaks, each non-empty paragraph
/// becomes a block element whose inline markup is parsed back into
/// elements, and the tree is converted under the allow-list.
pub fn build_telegraph_nodes_from_html_message(html_message: &str) -> (r: Vec<TelegraphNode>)
    ensures
        tg_nodes_view(r@) == spec_tg_children(spec_build_dom(html_message@), 0, Seq::empty(), true),
{
    let v = chars_of(html_message);
    let paras = split_paragraphs(&v);
    let ghost pv = paras_view(paras@);
    let m = paras.len();
    let mut children: Vec<DomNode> = Vec::new();
    let mut k: usize = 0;
    proof {
        assert(dom_nodes_view(children@) =~= Seq::<DomNodeView>::empty());
        assert(dom_nodes_view(children@) + spec_build_dom_from(pv, 0) =~= spec_build_dom_from(
            pv,
            0,
        ));
    }
    while k < m
        invariant
            k <= m,
            m == paras@.len(),
            pv == paras_view(paras@),
            pv.len() == m,
            spec_build_dom_from(pv, 0) == dom_nodes_view(children@) + spec_build_dom_from(
                pv,
                k as int,
            ),
        decreases m - k,
    {
        let ghost before = dom_nodes_view(children@);
        let t = trim(&paras[k]);
        proof {
            assert(pv[k as int] == paras@[k as int]@);
        }
        if t.len() > 0 {
            if k > 0 {
                let sep = DomNode::Text(String::from_str("\n"));
                let ghost gsep = sep;
                let ghost b0 = children@;
                children.push(sep);
                proof {
                    lemma_dom_nodes_view_push(b0, gsep);
                }
            }
            let ghost mid = dom_nodes_view(children@);
            let parsed = parse_inline_nodes(&t, 0, InlineStop::AtEnd);
            let kids = parsed.0;
            let node = DomNode::Element(
                DomElement { tag: String::from_str("p"), attrs: Vec::new(), children: kids },
            );
            let ghost gnode = node;
            let ghost b1 = children@;
            children.push(node);
            proof {
                lemma_dom_nodes_view_push(b1, gnode);
                assert(attrs_view(Seq::<(String, String)>::empty()) =~= Seq::<
                    (Seq<char>, Seq<char>),
                >::empty());
                let p = DomNodeView::Element(
                    DomElemView {
                        tag: "p"@,
                        attrs: Seq::empty(),
                        children: spec_parse_inline(trim_of(pv[k as int]), 0, None).0,
                    },
                );
                assert(dom_node_view(gnode) == p);
                if k > 0 {
                    assert(dom_nodes_view(children@) =~= before + (seq![
                        DomNodeView::Text("\n"@),
                    ] + seq![p]));
                    assert(before + (seq![DomNodeView::Text("\n"@)] + seq![p])
                        + spec_build_dom_from(pv, k + 1) =~= before + ((seq![
                        DomNodeView::Text("\n"@),
                    ] + seq![p]) + spec_build_dom_from(pv, k + 1)));
                } else {
                    assert(dom_nodes_view(children@) =~= before + (Seq::<
                        DomNodeView,
                    >::empty() + seq![p]));
                    assert(before + (Seq::<DomNodeView>::empty() + seq![p]) + spec_build_dom_from(
                        pv,
                        k + 1,
                    ) =~= before + ((Seq::<DomNodeView>::empty() + seq![p]) + spec_build_dom_from(
                        pv,
                        k + 1,
                    )));
                }
            }
        }
        k = k + 1;
    }
    let body = DomElement {
        tag: String::from_str("body"),
        attrs: Vec::new(),
        children,
    };
    let r = telegraph_nodes_from_children(&body);
    r
}

} // verus!
