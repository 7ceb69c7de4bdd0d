//! Conversion of HTML trees into the constrained rich text of the
//! short-form publishing surface, and the plain-text length measure that
//! its hard size limit is stated in.

use vstd::prelude::*;
use crate::chars::{
    chars_of, char_is_space, is_prefix_ci, is_space, push_char, starts_with_ci, string_of,
    sub_vec, trim, trim_of, utf16_len, utf16_len_of,
};

verus! {

/// A tag buffer that ends a tag which separates words: a line break, a
/// paragraph close or a paragraph open (after trimming, without regard to
/// ASCII case).
pub open spec fn tag_is_blockish(tag: Seq<char>) -> bool {
    ||| is_prefix_ci("br"@, trim_of(tag))
    ||| is_prefix_ci("/p"@, trim_of(tag))
    ||| is_prefix_ci("p"@, trim_of(tag))
}

/// One pass of the tag-stripping scanner from position `i`: characters
/// inside tags are dropped, a tag boundary or white space becomes a single
/// space, runs of white space collapse.
pub open spec fn strip_from(
    s: Seq<char>,
    i: int,
    in_tag: bool,
    last_space: bool,
    tag: Seq<char>,
) -> Seq<char>
    decreases s.len() - i,
{
    if i < 0 || i >= s.len() {
        Seq::empty()
    } else {
        let c = s[i];
        if in_tag {
            if c == '>' {
                let emit = tag_is_blockish(tag) && !last_space;
                if emit {
                    seq![' '] + strip_from(s, i + 1, false, true, Seq::empty())
                } else {
                    strip_from(s, i + 1, false, last_space, Seq::empty())
                }
            } else {
                strip_from(s, i + 1, true, last_space, tag.push(c))
            }
        } else if c == '<' {
            if last_space {
                strip_from(s, i + 1, true, true, Seq::empty())
            } else {
                seq![' '] + strip_from(s, i + 1, true, true, Seq::empty())
            }
        } else if is_space(c) {
            if last_space {
                strip_from(s, i + 1, false, true, tag)
            } else {
                seq![' '] + strip_from(s, i + 1, false, true, tag)
            }
        } else {
            seq![c] + strip_from(s, i + 1, false, false, tag)
        }
    }
}

/// The plain text that remains when tags are stripped: the scan, trimmed.
pub open spec fn spec_strip_tags(s: Seq<char>) -> Seq<char> {
    trim_of(strip_from(s, 0, false, false, Seq::empty()))
}

/// The scanner never emits more characters than it reads.
pub proof fn lemma_strip_from_len(s: Seq<char>, i: int, in_tag: bool, last_space: bool, tag: Seq<char>)
    ensures
        strip_from(s, i, in_tag, last_space, tag).len() <= if i < s.len() {
            s.len() - i
        } else {
            0
        },
    decreases s.len() - i,
{
    if 0 <= i < s.len() {
        let c = s[i];
        if in_tag {
            if c == '>' {
                lemma_strip_from_len(s, i + 1, false, true, Seq::empty());
                lemma_strip_from_len(s, i + 1, false, last_space, Seq::empty());
            } else {
                lemma_strip_from_len(s, i + 1, true, last_space, tag.push(c));
            }
        } else if c == '<' {
            lemma_strip_from_len(s, i + 1, true, true, Seq::empty());
        } else {
            lemma_strip_from_len(s, i + 1, false, true, tag);
            lemma_strip_from_len(s, i + 1, false, false, tag);
        }
    }
}

/// Trimming never lengthens a sequence.
pub proof fn lemma_trim_len(s: Seq<char>)
    ensures
        trim_of(s).len() <= s.len(),
{
    lemma_trim_left_len(s);
    lemma_trim_right_len(crate::chars::trim_left(s));
}

proof fn lemma_trim_left_len(s: Seq<char>)
    ensures
        crate::chars::trim_left(s).len() <= s.len(),
    decreases s.len(),
{
    if s.len() > 0 && is_space(s[0]) {
        lemma_trim_left_len(s.drop_first());
    }
}

proof fn lemma_trim_right_len(s: Seq<char>)
    ensures
        crate::chars::trim_right(s).len() <= s.len(),
    decreases s.len(),
{
    if s.len() > 0 && is_space(s.last()) {
        lemma_trim_right_len(s.drop_last());
    }
}

/// Strips markup from the text: tag bodies are dropped, block-ish tag
/// boundaries keep words separated by a single space, white space runs
/// collapse to one space, and the result is trimmed.
pub fn strip_html_tags_to_text(html: &str) -> (r: String)
    ensures
        r@ == spec_strip_tags(html@),
{
    let v = chars_of(html);
    let out = strip_chars(&v);
    let trimmed = trim(&out);
    string_of(&trimmed)
}

/// The untrimmed scan, shared by the stripper and the length measure.
fn strip_chars(v: &Vec<char>) -> (r: Vec<char>)
    ensures
        r@ == strip_from(v@, 0, false, false, Seq::empty()),
        r@.len() <= v@.len(),
{
    let n = v.len();
    let mut out: Vec<char> = Vec::new();
    let mut tag: Vec<char> = Vec::new();
    let mut in_tag = false;
    let mut last_space = false;
    let mut i: usize = 0;
    while i < n
        invariant
            i <= n,
            n == v@.len(),
            strip_from(v@, 0, false, false, Seq::empty()) == out@ + strip_from(
                v@,
                i as int,
                in_tag,
                last_space,
                tag@,
            ),
            out@.len() <= i,
        decreases n - i,
    {
        proof {
            lemma_strip_from_len(v@, i + 1, in_tag, last_space, tag@);
        }
        let c = v[i];
        if in_tag {
            if c == '>' {
                let tt = trim(&tag);
                let br = chars_of("br");
                let cp = chars_of("/p");
                let op = chars_of("p");
                let blockish = starts_with_ci(&tt, &br) || starts_with_ci(&tt, &cp)
                    || starts_with_ci(&tt, &op);
                if blockish && !last_space {
                    out.push(' ');
                    last_space = true;
                }
                in_tag = false;
                tag = Vec::new();
            } else {
                tag.push(c);
            }
        } else if c == '<' {
            if !last_space {
                out.push(' ');
            }
            last_space = true;
            in_tag = true;
            tag = Vec::new();
        } else if char_is_space(c) {
            if !last_space {
                out.push(' ');
            }
            last_space = true;
        } else {
            out.push(c);
            last_space = false;
        }
        i = i + 1;
    }
    proof {
        assert(strip_from(v@, i as int, in_tag, last_space, tag@) =~= Seq::<char>::empty());
        assert(out@ =~= out@ + Seq::<char>::empty());
    }
    out
}

/// The approximate length of the message after entity parsing: the markup
/// is stripped to plain text and the rest is counted in UTF-16 code units,
/// which is the unit the short-form surface's limit is stated in.
pub fn telegram_text_len_utf16_after_entities_guess(html_text: &str) -> (r: usize)
    requires
        2 * html_text@.len() <= usize::MAX,
    ensures
        r == utf16_len(spec_strip_tags(html_text@)),
{
    let v = chars_of(html_text);
    let out = strip_chars(&v);
    let trimmed = trim(&out);
    proof {
        lemma_trim_len(out@);
        crate::chars::lemma_utf16_len_bounds(trimmed@);
    }
    utf16_len_of(&trimmed)
}

/// Normalization of converted rich text from position `i`: runs of three
/// or more newlines collapse to two, runs of repeated spaces collapse to
/// one. `nl_run` and `sp_run` say how much of the current run was kept.
pub open spec fn norm_from(s: Seq<char>, i: int, nl_run: int, sp_run: int) -> Seq<char>
    decreases s.len() - i,
{
    if i < 0 || i >= s.len() {
        Seq::empty()
    } else {
        let c = s[i];
        if c == '\n' {
            if nl_run >= 2 {
                norm_from(s, i + 1, nl_run, 0)
            } else {
                seq!['\n'] + norm_from(s, i + 1, nl_run + 1, 0)
            }
        } else if c == ' ' {
            if sp_run >= 1 {
                norm_from(s, i + 1, 0, sp_run)
            } else {
                seq![' '] + norm_from(s, i + 1, 0, 1)
            }
        } else {
            seq![c] + norm_from(s, i + 1, 0, 0)
        }
    }
}

/// The whitespace-normalized form of converted rich text.
pub open spec fn spec_normalize_ws(s: Seq<char>) -> Seq<char> {
    norm_from(s, 0, 0, 0)
}

/// Collapses runs of three or more newlines to two and runs of repeated
/// spaces to one.
pub fn normalize_ws(v: &Vec<char>) -> (r: Vec<char>)
    ensures
        r@ == spec_normalize_ws(v@),
{
    let n = v.len();
    let mut out: Vec<char> = Vec::new();
    let mut nl_run: u8 = 0;
    let mut sp_run: u8 = 0;
    let mut i: usize = 0;
    while i < n
        invariant
            i <= n,
            n == v@.len(),
            nl_run <= 2,
            sp_run <= 1,
            spec_normalize_ws(v@) == out@ + norm_from(v@, i as int, nl_run as int, sp_run as int),
        decreases n - i,
    {
        let c = v[i];
        if c == '\n' {
            if nl_run < 2 {
                out.push('\n');
                nl_run = nl_run + 1;
            }
            sp_run = 0;
        } else if c == ' ' {
            if sp_run < 1 {
                out.push(' ');
                sp_run = 1;
            }
            nl_run = 0;
        } else {
            out.push(c);
            nl_run = 0;
            sp_run = 0;
        }
        i = i + 1;
    }
    proof {
        assert(norm_from(v@, i as int, nl_run as int, sp_run as int) =~= Seq::<char>::empty());
        assert(out@ =~= out@ + Seq::<char>::empty());
    }
    out
}

/// A parsed HTML node, as the out-of-core parser hands it to the
/// converters: an element with its tag, attributes and children, or a run
/// of text.
pub enum DomNode {
    Text(String),
    Element(DomElement),
}

/// A parsed HTML element.
pub struct DomElement {
    pub tag: String,
    pub attrs: Vec<(String, String)>,
    pub children: Vec<DomNode>,
}

/// The value of the first attribute named `key`, searching from `i`.
pub open spec fn spec_attr(attrs: Seq<(String, String)>, key: Seq<char>, i: int) -> Option<
    Seq<char>,
>
    decreases attrs.len() - i,
{
    if i < 0 || i >= attrs.len() {
        None
    } else if attrs[i].0@ == key {
        Some(attrs[i].1@)
    } else {
        spec_attr(attrs, key, i + 1)
    }
}

pub open spec fn is_heading(t: Seq<char>) -> bool {
    t == "h1"@ || t == "h2"@ || t == "h3"@ || t == "h4"@ || t == "h5"@ || t == "h6"@
}

/// Subtrees dropped entirely from the rich text.
pub open spec fn is_dropped(t: Seq<char>) -> bool {
    t == "html"@ || t == "head"@ || t == "meta"@ || t == "title"@ || t == "style"@ || t
        == "script"@
}

/// Inline elements whose children pass through without block spacing.
pub open spec fn is_inline_kept(t: Seq<char>) -> bool {
    t == "span"@ || t == "a"@ || t == "strong"@ || t == "b"@ || t == "i"@ || t == "em"@
}

pub open spec fn seq_ends_with(s: Seq<char>, suffix: Seq<char>) -> bool {
    suffix.len() <= s.len() && s.subrange(s.len() - suffix.len(), s.len() as int) == suffix
}

/// Text appended with its white space collapsed in context: every run of
/// white space becomes one space, and a space is dropped where the output
/// already ends in white space (or holds nothing yet).
pub open spec fn append_collapsed(acc: Seq<char>, t: Seq<char>, i: int) -> Seq<char>
    decreases t.len() - i,
{
    if i < 0 || i >= t.len() {
        acc
    } else {
        let c = t[i];
        if is_space(c) {
            if acc.len() > 0 && !is_space(acc.last()) {
                append_collapsed(acc.push(' '), t, i + 1)
            } else {
                append_collapsed(acc, t, i + 1)
            }
        } else {
            append_collapsed(acc.push(c), t, i + 1)
        }
    }
}

/// The rich text accumulated after converting one node on top of `acc`:
/// text passes through with single-space-collapsed white space; an
/// element converts by its tag.
pub open spec fn spec_process_node(acc: Seq<char>, n: DomNode) -> Seq<char>
    decreases n,
{
    match n {
        DomNode::Text(t) => append_collapsed(acc, t@, 0),
        DomNode::Element(e) => spec_process_element(acc, e),
    }
}

/// The rich text accumulated after converting one element on top of
/// `acc`: headings and bold map to the emphasis wrapper, paragraphs and
/// other block elements end in a double line break, anchors keep their
/// address, line breaks become newlines, document scaffolding is dropped,
/// and all other elements pass their children through.
pub open spec fn spec_process_element(acc: Seq<char>, e: DomElement) -> Seq<char>
    decreases e,
{
    let t = e.tag@;
    let cs = e.children@;
    if is_heading(t) {
        spec_process_children(acc + "<b>"@, cs, 0) + "</b>\n\n"@
    } else if t == "p"@ {
        spec_process_children(acc, cs, 0) + "\n\n"@
    } else if t == "strong"@ || t == "b"@ {
        spec_process_children(acc + "<b>"@, cs, 0) + "</b>"@
    } else if t == "a"@ {
        match spec_attr(e.attrs@, "href"@, 0) {
            Some(h) => spec_process_children(acc + "<a href=\""@ + h + "\">"@, cs, 0) + "</a>"@,
            None => spec_process_children(acc, cs, 0),
        }
    } else if t == "br"@ {
        acc + "\n"@
    } else if is_dropped(t) {
        acc
    } else {
        let r = spec_process_children(acc, cs, 0);
        if !is_inline_kept(t) && !seq_ends_with(r, "\n\n"@) && r.len() > 0 {
            r + "\n\n"@
        } else {
            r
        }
    }
}

/// The rich text accumulated after converting the children from index `i`
/// on, in order.
pub open spec fn spec_process_children(acc: Seq<char>, cs: Seq<DomNode>, i: int) -> Seq<char>
    decreases cs, cs.len() - i,
{
    if i < 0 || i >= cs.len() {
        acc
    } else {
        spec_process_children(spec_process_node(acc, cs[i]), cs, i + 1)
    }
}

/// The first attribute value named `key` on the element, if any.
pub(crate) fn find_attr<'a>(attrs: &'a Vec<(String, String)>, key: &str) -> (r: Option<&'a String>)
    ensures
        match r {
            Some(v) => spec_attr(attrs@, key@, 0) == Some(v@),
            None => spec_attr(attrs@, key@, 0) is None,
        },
{
    let n = attrs.len();
    let mut i: usize = 0;
    while i < n
        invariant
            i <= n,
            n == attrs@.len(),
            spec_attr(attrs@, key@, 0) == spec_attr(attrs@, key@, i as int),
        decreases n - i,
    {
        if crate::chars::str_eq(attrs[i].0.as_str(), key) {
            return Some(&attrs[i].1);
        }
        i = i + 1;
    }
    None
}

/// Appends the rich-text conversion of one element to `result`.
pub fn process_element(result: &mut String, element: &DomElement)
    ensures
        final(result)@ == spec_process_element(old(result)@, *element),
    decreases *element, 1int,
{
    let t = element.tag.as_str();
    if crate::chars::str_eq(t, "h1") || crate::chars::str_eq(t, "h2") || crate::chars::str_eq(
        t,
        "h3",
    ) || crate::chars::str_eq(t, "h4") || crate::chars::str_eq(t, "h5") || crate::chars::str_eq(
        t,
        "h6",
    ) {
        result.append("<b>");
        process_element_children(result, element);
        result.append("</b>\n\n");
    } else if crate::chars::str_eq(t, "p") {
        process_element_children(result, element);
        result.append("\n\n");
    } else if crate::chars::str_eq(t, "strong") || crate::chars::str_eq(t, "b") {
        result.append("<b>");
        process_element_children(result, element);
        result.append("</b>");
    } else if crate::chars::str_eq(t, "a") {
        match find_attr(&element.attrs, "href") {
            Some(href) => {
                result.append("<a href=\"");
                result.append(href.as_str());
                result.append("\">");
                process_element_children(result, element);
                result.append("</a>");
            },
            None => {
                process_element_children(result, element);
            },
        }
    } else if crate::chars::str_eq(t, "br") {
        result.append("\n");
    } else if crate::chars::str_eq(t, "html") || crate::chars::str_eq(t, "head")
        || crate::chars::str_eq(t, "meta") || crate::chars::str_eq(t, "title")
        || crate::chars::str_eq(t, "style") || crate::chars::str_eq(t, "script") {
    } else {
        process_element_children(result, element);
        let inline_kept = crate::chars::str_eq(t, "span") || crate::chars::str_eq(t, "a")
            || crate::chars::str_eq(t, "strong") || crate::chars::str_eq(t, "b")
            || crate::chars::str_eq(t, "i") || crate::chars::str_eq(t, "em");
        let rv = chars_of(result.as_str());
        let nlnl = chars_of("\n\n");
        let ends = ends_with_of(&rv, &nlnl);
        if !inline_kept && !ends && result.as_str().unicode_len() > 0 {
            result.append("\n\n");
        }
    }
}

fn ends_with_of(s: &Vec<char>, suffix: &Vec<char>) -> (r: bool)
    ensures
        r == seq_ends_with(s@, suffix@),
{
    if suffix.len() > s.len() {
        return false;
    }
    let tail = sub_vec(s, s.len() - suffix.len(), s.len());
    let mut i: usize = 0;
    let m = suffix.len();
    while i < m
        invariant
            i <= m,
            m == suffix@.len(),
            m <= s@.len(),
            tail@ == s@.subrange(s@.len() - m, s@.len() as int),
            tail@.len() == m,
            forall|k: int| 0 <= k < i ==> tail@[k] == suffix@[k],
        decreases m - i,
    {
        if tail[i] != suffix[i] {
            proof {
                assert(tail@ == s@.subrange(s@.len() - suffix@.len(), s@.len() as int));
                if seq_ends_with(s@, suffix@) {
                    assert(tail@[i as int] == suffix@[i as int]);
                }
            }
            return false;
        }
        i = i + 1;
    }
    proof {
        assert(tail@ =~= suffix@);
    }
    true
}

/// Appends the rich-text conversion of the element's children, in order,
/// to `result`.
pub fn process_element_children(result: &mut String, element: &DomElement)
    ensures
        final(result)@ == spec_process_children(old(result)@, element.children@, 0),
    decreases *element, 0int,
{
    let n = element.children.len();
    let mut i: usize = 0;
    while i < n
        invariant
            i <= n,
            n == element.children@.len(),
            spec_process_children(old(result)@, element.children@, 0) == spec_process_children(
                result@,
                element.children@,
                i as int,
            ),
        decreases n - i,
    {
        proof {
            reveal_strlit(" ");
            assert(" "@ =~= seq![' ']);
        }
        let ghost acc = result@;
        let node = &element.children[i];
        match node {
            DomNode::Text(text) => {
                let tv = chars_of(text.as_str());
                append_text_collapsed(result, &tv);
            },
            DomNode::Element(child) => {
                process_element(result, child);
            },
        }
        proof {
            assert(result@ == spec_process_node(acc, element.children@[i as int]));
            assert(spec_process_children(acc, element.children@, i as int)
                == spec_process_children(result@, element.children@, i + 1));
        }
        i = i + 1;
    }
}

/// Appends text to the output with white space collapsed in context.
fn append_text_collapsed(result: &mut String, t: &Vec<char>)
    ensures
        final(result)@ == append_collapsed(old(result)@, t@, 0),
{
    let rv = chars_of(result.as_str());
    let mut nonempty = rv.len() > 0;
    let mut last_space = rv.len() > 0 && char_is_space(rv[rv.len() - 1]);
    let n = t.len();
    let mut i: usize = 0;
    while i < n
        invariant
            i <= n,
            n == t@.len(),
            nonempty == (result@.len() > 0),
            last_space == (result@.len() > 0 && is_space(result@.last())),
            append_collapsed(old(result)@, t@, 0) == append_collapsed(result@, t@, i as int),
        decreases n - i,
    {
        let c = t[i];
        if char_is_space(c) {
            if nonempty && !last_space {
                push_char(result, ' ');
                last_space = true;
            }
        } else {
            push_char(result, c);
            nonempty = true;
            last_space = false;
        }
        i = i + 1;
    }
}

/// The first element with the `body` tag, in document order.
pub open spec fn spec_find_body(n: DomNode) -> Option<DomElement>
    decreases n,
{
    match n {
        DomNode::Text(_) => None,
        DomNode::Element(e) => if e.tag@ == "body"@ {
            Some(e)
        } else {
            spec_find_body_in(e.children@, 0)
        },
    }
}

pub open spec fn spec_find_body_in(cs: Seq<DomNode>, i: int) -> Option<DomElement>
    decreases cs, cs.len() - i,
{
    if i < 0 || i >= cs.len() {
        None
    } else {
        match spec_find_body(cs[i]) {
            Some(b) => Some(b),
            None => spec_find_body_in(cs, i + 1),
        }
    }
}

fn find_body<'a>(n: &'a DomNode) -> (r: Option<&'a DomElement>)
    ensures
        match r {
            Some(b) => spec_find_body(*n) == Some(*b),
            None => spec_find_body(*n) is None,
        },
    decreases *n, 1int,
{
    match n {
        DomNode::Text(_) => None,
        DomNode::Element(e) => {
            if crate::chars::str_eq(e.tag.as_str(), "body") {
                Some(e)
            } else {
                find_body_in(&e.children)
            }
        },
    }
}

fn find_body_in<'a>(cs: &'a Vec<DomNode>) -> (r: Option<&'a DomElement>)
    ensures
        match r {
            Some(b) => spec_find_body_in(cs@, 0) == Some(*b),
            None => spec_find_body_in(cs@, 0) is None,
        },
    decreases *cs, 0int,
{
    let n = cs.len();
    let mut i: usize = 0;
    while i < n
        invariant
            i <= n,
            n == cs@.len(),
            spec_find_body_in(cs@, 0) == spec_find_body_in(cs@, i as int),
        decreases n - i,
    {
        if let Some(b) = find_body(&cs[i]) {
            return Some(b);
        }
        i = i + 1;
    }
    None
}

/// The rich-text form of the document: the conversion of its first `body`
/// element, whitespace-normalized; nothing when the tree has no body.
pub open spec fn spec_transform_html(root: DomNode) -> Option<Seq<char>> {
    match spec_find_body(root) {
        None => None,
        Some(b) => Some(spec_normalize_ws(spec_process_element(Seq::empty(), b))),
    }
}

/// Converts a parsed document to constrained rich text: the first `body`
/// element is converted and the result normalized. Nothing when the tree
/// has no body.
pub fn transform_html(root: &DomNode) -> (r: Option<String>)
    ensures
        match r {
            Some(s) => spec_transform_html(*root) == Some(s@),
            None => spec_transform_html(*root) is None,
        },
{
    let body = match find_body(root) {
        Some(b) => b,
        None => {
            return None;
        },
    };
    let mut out = String::new();
    process_element(&mut out, body);
    let v = chars_of(out.as_str());
    let normalized = normalize_ws(&v);
    Some(string_of(&normalized))
}

proof fn lemma_append_collapsed_clean(acc: Seq<char>, t: Seq<char>, i: int)
    requires
        0 <= i <= t.len(),
        forall|j: int| i <= j < t.len() ==> !is_space(t[j]),
    ensures
        append_collapsed(acc, t, i) == acc + t.subrange(i, t.len() as int),
    decreases t.len() - i,
{
    if i == t.len() {
        assert(acc + t.subrange(i, i) =~= acc);
    } else {
        assert(!is_space(t[i]));
        lemma_append_collapsed_clean(acc.push(t[i]), t, i + 1);
        assert(acc.push(t[i]) + t.subrange(i + 1, t.len() as int) =~= acc + t.subrange(
            i,
            t.len() as int,
        ));
    }
}

proof fn lemma_norm_shift(s: Seq<char>, base: int, j: int, nl: int, sp: int)
    requires
        0 <= base <= s.len(),
        0 <= j,
    ensures
        norm_from(s, base + j, nl, sp) == norm_from(s.subrange(base, s.len() as int), j, nl, sp),
    decreases s.len() - base - j + 1,
{
    let sub = s.subrange(base, s.len() as int);
    if base + j >= s.len() {
    } else {
        assert(sub[j] == s[base + j]);
        let c = s[base + j];
        if c == '\n' {
            if nl >= 2 {
                lemma_norm_shift(s, base, j + 1, nl, 0);
            } else {
                lemma_norm_shift(s, base, j + 1, nl + 1, 0);
            }
        } else if c == ' ' {
            if sp >= 1 {
                lemma_norm_shift(s, base, j + 1, 0, sp);
            } else {
                lemma_norm_shift(s, base, j + 1, 0, 1);
            }
        } else {
            lemma_norm_shift(s, base, j + 1, 0, 0);
        }
    }
}

proof fn lemma_strip_shift(
    s: Seq<char>,
    base: int,
    j: int,
    in_tag: bool,
    last_space: bool,
    tag: Seq<char>,
)
    requires
        0 <= base <= s.len(),
        0 <= j,
    ensures
        strip_from(s, base + j, in_tag, last_space, tag) == strip_from(
            s.subrange(base, s.len() as int),
            j,
            in_tag,
            last_space,
            tag,
        ),
    decreases s.len() - base - j + 1,
{
    let sub = s.subrange(base, s.len() as int);
    if base + j >= s.len() {
    } else {
        assert(sub[j] == s[base + j]);
        let c = s[base + j];
        if in_tag {
            if c == '>' {
                lemma_strip_shift(s, base, j + 1, false, true, Seq::empty());
                lemma_strip_shift(s, base, j + 1, false, last_space, Seq::empty());
            } else {
                lemma_strip_shift(s, base, j + 1, true, last_space, tag.push(c));
            }
        } else if c == '<' {
            lemma_strip_shift(s, base, j + 1, true, true, Seq::empty());
        } else if is_space(c) {
            lemma_strip_shift(s, base, j + 1, false, true, tag);
        } else {
            lemma_strip_shift(s, base, j + 1, false, false, tag);
        }
    }
}

/// A block of plain content: non-empty text free of markup and white
/// space.
pub open spec fn clean_text(t: Seq<char>) -> bool {
    t.len() > 0 && forall|j: int| 0 <= j < t.len() ==> (t[j] != '<' && !is_space(t[j]))
}

/// The rich text of a list of plain blocks: each block followed by a
/// double line break.
pub open spec fn rich_blocks(ts: Seq<Seq<char>>) -> Seq<char>
    decreases ts.len(),
{
    if ts.len() == 0 {
        Seq::empty()
    } else {
        ts[0] + "\n\n"@ + rich_blocks(ts.drop_first())
    }
}

/// The plain content of a list of blocks: the blocks joined by single
/// spaces.
pub open spec fn plain_blocks(ts: Seq<Seq<char>>) -> Seq<char>
    decreases ts.len(),
{
    if ts.len() == 0 {
        Seq::empty()
    } else if ts.len() == 1 {
        ts[0]
    } else {
        ts[0] + seq![' '] + plain_blocks(ts.drop_first())
    }
}

/// A scanner segment of clean characters passes through unchanged and
/// resets the run counters.
proof fn lemma_norm_clean_seg(s: Seq<char>, j: int, end: int, nl: int, sp: int)
    requires
        0 <= j < end <= s.len(),
        forall|k: int| j <= k < end ==> (s[k] != '\n' && s[k] != ' '),
    ensures
        norm_from(s, j, nl, sp) == s.subrange(j, end) + norm_from(s, end, 0, 0),
    decreases end - j,
{
    if j + 1 == end {
        assert(seq![s[j]] =~= s.subrange(j, end));
    } else {
        lemma_norm_clean_seg(s, j + 1, end, 0, 0);
        assert(seq![s[j]] + (s.subrange(j + 1, end) + norm_from(s, end, 0, 0)) =~= s.subrange(
            j,
            end,
        ) + norm_from(s, end, 0, 0));
    }
}

/// Normalization leaves the rich text of clean blocks unchanged, from
/// either run state a block boundary can leave behind.
proof fn lemma_norm_blocks(ts: Seq<Seq<char>>, nl0: int)
    requires
        nl0 == 0 || nl0 == 2,
        forall|i: int| 0 <= i < ts.len() ==> clean_text(#[trigger] ts[i]),
    ensures
        norm_from(rich_blocks(ts), 0, nl0, 0) == rich_blocks(ts),
    decreases ts.len(),
{
    if ts.len() == 0 {
    } else {
        let t0 = ts[0];
        let rest = rich_blocks(ts.drop_first());
        let s = rich_blocks(ts);
        let e = t0.len() as int;
        reveal_strlit("\n\n");
        assert("\n\n"@.len() == 2 && "\n\n"@[0] == '\n' && "\n\n"@[1] == '\n');
        assert(clean_text(t0));
        assert(s.len() == e + 2 + rest.len());
        assert(forall|k: int| 0 <= k < e ==> s[k] == t0[k]);
        assert(s[e] == '\n' && s[e + 1] == '\n');
        lemma_norm_clean_seg(s, 0, e, nl0, 0);
        assert(norm_from(s, e, 0, 0) == seq!['\n'] + norm_from(s, e + 1, 1, 0));
        assert(norm_from(s, e + 1, 1, 0) == seq!['\n'] + norm_from(s, e + 2, 2, 0));
        lemma_norm_shift(s, e + 2, 0, 2, 0);
        assert(s.subrange(e + 2, s.len() as int) =~= rest);
        lemma_norm_blocks(ts.drop_first(), 2);
        assert(s.subrange(0, e) =~= t0);
        assert(t0 + (seq!['\n'] + (seq!['\n'] + rest)) =~= s);
    }
}

/// A scanner segment of clean characters is emitted verbatim and leaves
/// the stripper outside a tag with a non-space last character.
proof fn lemma_strip_clean_seg(s: Seq<char>, j: int, end: int, last_space: bool)
    requires
        0 <= j < end <= s.len(),
        forall|k: int| j <= k < end ==> (s[k] != '<' && !is_space(s[k])),
    ensures
        strip_from(s, j, false, last_space, Seq::empty()) == s.subrange(j, end) + strip_from(
            s,
            end,
            false,
            false,
            Seq::empty(),
        ),
    decreases end - j,
{
    if j + 1 == end {
        assert(seq![s[j]] =~= s.subrange(j, end));
    } else {
        lemma_strip_clean_seg(s, j + 1, end, false);
        assert(seq![s[j]] + (s.subrange(j + 1, end) + strip_from(s, end, false, false, Seq::empty()))
            =~= s.subrange(j, end) + strip_from(s, end, false, false, Seq::empty()));
    }
}

/// What the stripper emits for the rich text of clean blocks: each block
/// followed by the single space its line break collapses to.
proof fn lemma_strip_blocks(ts: Seq<Seq<char>>, last_space0: bool)
    requires
        forall|i: int| 0 <= i < ts.len() ==> clean_text(#[trigger] ts[i]),
    ensures
        strip_from(rich_blocks(ts), 0, false, last_space0, Seq::empty()) == (if ts.len() == 0 {
            Seq::<char>::empty()
        } else {
            plain_blocks(ts) + seq![' ']
        }),
    decreases ts.len(),
{
    if ts.len() == 0 {
    } else {
        let t0 = ts[0];
        let rest = rich_blocks(ts.drop_first());
        let s = rich_blocks(ts);
        let e = t0.len() as int;
        reveal_strlit("\n\n");
        assert("\n\n"@.len() == 2 && "\n\n"@[0] == '\n' && "\n\n"@[1] == '\n');
        assert(clean_text(t0));
        assert(s.len() == e + 2 + rest.len());
        assert(forall|k: int| 0 <= k < e ==> s[k] == t0[k]);
        assert(s[e] == '\n' && s[e + 1] == '\n');
        lemma_strip_clean_seg(s, 0, e, last_space0);
        assert(is_space(s[e]) && is_space(s[e + 1]));
        assert(strip_from(s, e, false, false, Seq::empty()) == seq![' '] + strip_from(
            s,
            e + 1,
            false,
            true,
            Seq::empty(),
        ));
        assert(strip_from(s, e + 1, false, true, Seq::empty()) == strip_from(
            s,
            e + 2,
            false,
            true,
            Seq::empty(),
        ));
        lemma_strip_shift(s, e + 2, 0, false, true, Seq::empty());
        assert(s.subrange(e + 2, s.len() as int) =~= rest);
        lemma_strip_blocks(ts.drop_first(), true);
        assert(s.subrange(0, e) =~= t0);
        if ts.len() == 1 {
            assert(rich_blocks(ts.drop_first()) =~= Seq::<char>::empty());
            assert(t0 + (seq![' '] + Seq::<char>::empty()) =~= plain_blocks(ts) + seq![' ']);
        } else {
            assert(t0 + (seq![' '] + (plain_blocks(ts.drop_first()) + seq![' '])) =~= (t0
                + seq![' '] + plain_blocks(ts.drop_first())) + seq![' ']);
        }
    }
}

/// A block element of the plain-paragraph family: a paragraph holding a
/// single clean text run.
pub open spec fn is_plain_paragraph(n: DomNode) -> bool {
    &&& n is Element
    &&& n->Element_0.tag@ == "p"@
    &&& n->Element_0.children@.len() == 1
    &&& n->Element_0.children@[0] is Text
    &&& clean_text(n->Element_0.children@[0]->Text_0@)
}

/// The text run of a plain paragraph.
pub open spec fn para_text(n: DomNode) -> Seq<char> {
    n->Element_0.children@[0]->Text_0@
}

/// The text runs of a sequence of plain paragraphs, in order.
pub open spec fn para_texts(cs: Seq<DomNode>) -> Seq<Seq<char>> {
    Seq::new(cs.len(), |j: int| para_text(cs[j]))
}

proof fn lemma_rich_blocks_ends(ts: Seq<Seq<char>>)
    requires
        ts.len() > 0,
    ensures
        rich_blocks(ts).len() >= 2,
        seq_ends_with(rich_blocks(ts), "\n\n"@),
    decreases ts.len(),
{
    reveal_strlit("\n\n");
    let s = rich_blocks(ts);
    if ts.len() == 1 {
        assert(rich_blocks(ts.drop_first()) =~= Seq::<char>::empty());
        assert(s.subrange(s.len() - 2, s.len() as int) =~= "\n\n"@);
    } else {
        lemma_rich_blocks_ends(ts.drop_first());
        let rest = rich_blocks(ts.drop_first());
        assert(s.subrange(s.len() - 2, s.len() as int) =~= rest.subrange(
            rest.len() - 2,
            rest.len() as int,
        ));
    }
}

proof fn lemma_plain_blocks_shape(ts: Seq<Seq<char>>)
    requires
        ts.len() > 0,
        forall|i: int| 0 <= i < ts.len() ==> clean_text(#[trigger] ts[i]),
    ensures
        plain_blocks(ts).len() > 0,
        !is_space(plain_blocks(ts).last()),
        plain_blocks(ts)[0] == ts[0][0],
    decreases ts.len(),
{
    if ts.len() == 1 {
        assert(clean_text(ts[0]));
    } else {
        lemma_plain_blocks_shape(ts.drop_first());
        let p = plain_blocks(ts);
        let rest = plain_blocks(ts.drop_first());
        assert(p.last() == rest.last());
        assert(p[0] == ts[0][0]);
    }
}

/// Converting a run of plain paragraphs appends each text run followed
/// by a double line break.
proof fn lemma_process_paragraphs(cs: Seq<DomNode>, k: int, acc: Seq<char>)
    requires
        0 <= k <= cs.len(),
        forall|j: int| 0 <= j < cs.len() ==> is_plain_paragraph(#[trigger] cs[j]),
    ensures
        spec_process_children(acc, cs, k) == acc + rich_blocks(
            para_texts(cs).subrange(k, cs.len() as int),
        ),
    decreases cs.len() - k,
{
    reveal_strlit("p");
    reveal_strlit("h1");
    reveal_strlit("h2");
    reveal_strlit("h3");
    reveal_strlit("h4");
    reveal_strlit("h5");
    reveal_strlit("h6");
    reveal_strlit("\n\n");
    assert("p"@.len() == 1);
    assert("h1"@.len() == 2 && "h2"@.len() == 2 && "h3"@.len() == 2 && "h4"@.len() == 2
        && "h5"@.len() == 2 && "h6"@.len() == 2);
    let texts = para_texts(cs);
    if k == cs.len() {
        assert(texts.subrange(k, cs.len() as int) =~= Seq::<Seq<char>>::empty());
        assert(acc + Seq::<char>::empty() =~= acc);
    } else {
        assert(is_plain_paragraph(cs[k]));
        let p = cs[k]->Element_0;
        let t = para_text(cs[k]);
        assert(!is_heading(p.tag@));
        lemma_append_collapsed_clean(acc, t, 0);
        assert(t.subrange(0, t.len() as int) =~= t);
        assert(spec_process_node(acc, p.children@[0]) == acc + t);
        assert(spec_process_children(acc + t, p.children@, 1) == acc + t);
        assert(spec_process_children(acc, p.children@, 0) == acc + t);
        let acc2 = (acc + t) + "\n\n"@;
        assert(spec_process_element(acc, p) == acc2);
        assert(spec_process_node(acc, cs[k]) == acc2);
        lemma_process_paragraphs(cs, k + 1, acc2);
        let sub = texts.subrange(k, cs.len() as int);
        assert(sub[0] == t);
        assert(sub.drop_first() =~= texts.subrange(k + 1, cs.len() as int));
        assert(rich_blocks(sub) == t + "\n\n"@ + rich_blocks(sub.drop_first()));
        assert(((acc + t) + "\n\n"@) + rich_blocks(sub.drop_first()) =~= acc + (t + "\n\n"@
            + rich_blocks(sub.drop_first())));
    }
}

/// Round trip of the plain-paragraph family: a document whose body holds
/// any number of paragraphs, each a single run of markup-free, space-free
/// text, converts to rich text whose stripped-to-plain-text form is
/// exactly the text runs joined by single spaces — so its UTF-16 measure
/// is the expected plain content length; the conversion neither loses nor
/// invents text.
pub proof fn lemma_round_trip_plain_paragraphs(root: DomNode)
    requires
        root is Element,
        root->Element_0.tag@ == "body"@,
        forall|j: int|
            0 <= j < root->Element_0.children@.len() ==> is_plain_paragraph(
                #[trigger] root->Element_0.children@[j],
            ),
    ensures
        ({
            let texts = para_texts(root->Element_0.children@);
            match spec_transform_html(root) {
                Some(rich) => spec_strip_tags(rich) == plain_blocks(texts) && utf16_len(
                    spec_strip_tags(rich),
                ) == utf16_len(plain_blocks(texts)),
                None => false,
            }
        }),
{
    let body = root->Element_0;
    let cs = body.children@;
    let texts = para_texts(cs);
    reveal_strlit("body");
    reveal_strlit("p");
    reveal_strlit("h1");
    reveal_strlit("h2");
    reveal_strlit("h3");
    reveal_strlit("h4");
    reveal_strlit("h5");
    reveal_strlit("h6");
    reveal_strlit("strong");
    reveal_strlit("b");
    reveal_strlit("a");
    reveal_strlit("br");
    reveal_strlit("html");
    reveal_strlit("head");
    reveal_strlit("meta");
    reveal_strlit("title");
    reveal_strlit("style");
    reveal_strlit("script");
    reveal_strlit("span");
    reveal_strlit("i");
    reveal_strlit("em");
    reveal_strlit("\n\n");
    assert("body"@.len() == 4);
    assert("p"@.len() == 1);
    assert("h1"@.len() == 2 && "h2"@.len() == 2 && "h3"@.len() == 2 && "h4"@.len() == 2
        && "h5"@.len() == 2 && "h6"@.len() == 2);
    assert("strong"@.len() == 6 && "b"@.len() == 1 && "a"@.len() == 1 && "br"@.len() == 2);
    assert("html"@.len() == 4 && "head"@.len() == 4 && "meta"@.len() == 4 && "title"@.len() == 5
        && "style"@.len() == 5 && "script"@.len() == 6);
    assert("span"@.len() == 4 && "i"@.len() == 1 && "em"@.len() == 2);
    assert("\n\n"@.len() == 2 && "\n\n"@[0] == '\n' && "\n\n"@[1] == '\n');
    assert("body"@[0] == 'b' && "html"@[0] == 'h' && "head"@[0] == 'h' && "meta"@[0] == 'm'
        && "span"@[0] == 's');

    // the body is found and its paragraphs convert to the rich blocks
    assert(spec_find_body(root) == Some(body));
    lemma_process_paragraphs(cs, 0, Seq::empty());
    assert(texts.subrange(0, cs.len() as int) =~= texts);
    let rich = rich_blocks(texts);
    assert(Seq::<char>::empty() + rich =~= rich);
    assert(spec_process_children(Seq::empty(), cs, 0) == rich);

    // the body wrapper adds nothing
    assert(!is_heading(body.tag@));
    assert(!is_inline_kept(body.tag@));
    assert(!is_dropped(body.tag@));
    if texts.len() == 0 {
        assert(rich =~= Seq::<char>::empty());
        assert(spec_process_element(Seq::empty(), body) == rich);
    } else {
        lemma_rich_blocks_ends(texts);
        assert(spec_process_element(Seq::empty(), body) == rich);
    }

    // normalization leaves it unchanged
    assert(forall|i: int| 0 <= i < texts.len() ==> clean_text(#[trigger] texts[i]));
    lemma_norm_blocks(texts, 0);
    assert(spec_normalize_ws(rich) == rich);
    assert(spec_transform_html(root) == Some(rich));

    // stripping recovers the blocks joined by single spaces
    lemma_strip_blocks(texts, false);
    if texts.len() == 0 {
        assert(strip_from(rich, 0, false, false, Seq::empty()) == Seq::<char>::empty());
        assert(crate::chars::trim_left(Seq::<char>::empty()) == Seq::<char>::empty());
        assert(crate::chars::trim_right(Seq::<char>::empty()) == Seq::<char>::empty());
        assert(spec_strip_tags(rich) == plain_blocks(texts));
    } else {
        let plain = plain_blocks(texts);
        let stripped = plain + seq![' '];
        lemma_plain_blocks_shape(texts);
        assert(clean_text(texts[0]));
        assert(!is_space(stripped[0]));
        assert(crate::chars::trim_left(stripped) == stripped);
        assert(stripped.drop_last() =~= plain);
        assert(stripped.last() == ' ');
        assert(is_space(stripped.last()));
        assert(crate::chars::trim_right(stripped) == crate::chars::trim_right(plain));
        assert(!is_space(plain.last()));
        assert(crate::chars::trim_right(plain) == plain);
        assert(spec_strip_tags(rich) == plain);
    }
}

} // verus!
