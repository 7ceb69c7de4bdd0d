//! The ordered chain of extractors that recovers the HTML document from a
//! model response that may wrap it in commentary or fenced code blocks.

use vstd::prelude::*;
use crate::chars::{
    chars_of, contains_ci, contains_sub_ci, find_first, find_last, first_match, is_prefix,
    last_match, starts_with, string_of, sub_vec, trim, trim_of,
};

verus! {

/// The document between the first document-start marker and the last
/// `</html>` close, trimmed; nothing when either marker is missing or they
/// cross.
pub open spec fn spec_extract_html_document_block(s: Seq<char>) -> Option<Seq<char>> {
    let start_opt = if first_match(s, "<html"@) is Some {
        first_match(s, "<html"@)
    } else if first_match(s, "<!DOCTYPE"@) is Some {
        first_match(s, "<!DOCTYPE"@)
    } else {
        first_match(s, "<!doctype"@)
    };
    match start_opt {
        None => None,
        Some(start) => match last_match(s, "</html>"@) {
            None => None,
            Some(e) => {
                let end = e + "</html>"@.len();
                if start >= end {
                    None
                } else {
                    Some(trim_of(s.subrange(start, end)))
                }
            },
        },
    }
}

/// The trimmed body of the first fenced block opened by `fence`, with one
/// newline (or carriage return and newline) after the fence skipped; nothing
/// when the fence never opens or never closes.
pub open spec fn spec_extract_fenced_block(s: Seq<char>, fence: Seq<char>) -> Option<Seq<char>> {
    match first_match(s, fence) {
        None => None,
        Some(p) => {
            let after0 = s.subrange(p + fence.len(), s.len() as int);
            let after = if is_prefix("\r\n"@, after0) {
                after0.subrange(2, after0.len() as int)
            } else if after0.len() >= 1 && after0[0] == '\n' {
                after0.subrange(1, after0.len() as int)
            } else {
                after0
            };
            match first_match(after, "```"@) {
                None => None,
                Some(e) => Some(trim_of(after.subrange(0, e))),
            }
        },
    }
}

/// The trimmed body of the first fenced block of any kind, with the language
/// line after the opening fence skipped when one is there.
pub open spec fn spec_extract_any_fenced_block(s: Seq<char>) -> Option<Seq<char>> {
    match first_match(s, "```"@) {
        None => None,
        Some(p) => {
            let after0 = s.subrange(p + 3, s.len() as int);
            let after = match first_match(after0, "\n"@) {
                Some(nl) => after0.subrange(nl + 1, after0.len() as int),
                None => after0,
            };
            match first_match(after, "```"@) {
                None => None,
                Some(e) => Some(trim_of(after.subrange(0, e))),
            }
        },
    }
}

/// The content passes the shape check for an HTML document: it holds a
/// matching pair of document, body or doctype markers, up to ASCII case.
pub open spec fn spec_looks_like_html(c: Seq<char>) -> bool {
    ||| contains_sub_ci(c, "<html"@) && contains_sub_ci(c, "</html>"@)
    ||| contains_sub_ci(c, "<body"@) && contains_sub_ci(c, "</body>"@)
    ||| contains_sub_ci(c, "<!doctype html"@) && contains_sub_ci(c, "</html>"@)
}

/// The extraction chain applied to the trimmed response, in priority order:
/// the document block, then an html-tagged fenced block, then any fenced
/// block, then the trimmed response itself.
pub open spec fn spec_post_process(content: Seq<char>) -> Seq<char> {
    let c = trim_of(content);
    if spec_extract_html_document_block(c) is Some {
        spec_extract_html_document_block(c)->Some_0
    } else if spec_extract_fenced_block(c, "```html"@) is Some {
        spec_extract_fenced_block(c, "```html"@)->Some_0
    } else if spec_extract_any_fenced_block(c) is Some {
        spec_extract_any_fenced_block(c)->Some_0
    } else {
        c
    }
}

/// Extracts a full HTML document when the model wrapped it in commentary.
pub fn extract_html_document_block(s: &str) -> (r: Option<String>)
    ensures
        match r {
            Some(x) => spec_extract_html_document_block(s@) == Some(x@),
            None => spec_extract_html_document_block(s@) is None,
        },
{
    let v = chars_of(s);
    extract_html_document_block_chars(&v)
}

fn extract_html_document_block_chars(v: &Vec<char>) -> (r: Option<String>)
    ensures
        match r {
            Some(x) => spec_extract_html_document_block(v@) == Some(x@),
            None => spec_extract_html_document_block(v@) is None,
        },
{
    let open_html = chars_of("<html");
    let doctype_upper = chars_of("<!DOCTYPE");
    let doctype_lower = chars_of("<!doctype");
    let close_html = chars_of("</html>");

    let start = match find_first(v, &open_html) {
        Some(i) => Some(i),
        None => match find_first(v, &doctype_upper) {
            Some(i) => Some(i),
            None => find_first(v, &doctype_lower),
        },
    };
    let start = match start {
        Some(i) => i,
        None => {
            return None;
        },
    };
    let e = match find_last(v, &close_html) {
        Some(e) => e,
        None => {
            return None;
        },
    };
    let vlen = v.len();
    let end = e + close_html.len();
    if start >= end {
        return None;
    }
    let body = sub_vec(v, start, end);
    let trimmed = trim(&body);
    Some(string_of(&trimmed))
}

/// Extracts the body of the first fenced block opened by `fence_start`.
pub fn extract_fenced_block(s: &str, fence_start: &str) -> (r: Option<String>)
    ensures
        match r {
            Some(x) => spec_extract_fenced_block(s@, fence_start@) == Some(x@),
            None => spec_extract_fenced_block(s@, fence_start@) is None,
        },
{
    let v = chars_of(s);
    let fence = chars_of(fence_start);
    extract_fenced_block_chars(&v, &fence)
}

fn extract_fenced_block_chars(v: &Vec<char>, fence: &Vec<char>) -> (r: Option<String>)
    ensures
        match r {
            Some(x) => spec_extract_fenced_block(v@, fence@) == Some(x@),
            None => spec_extract_fenced_block(v@, fence@) is None,
        },
{
    let p = match find_first(v, fence) {
        Some(p) => p,
        None => {
            return None;
        },
    };
    let vlen = v.len();
    let after0 = sub_vec(v, p + fence.len(), vlen);
    let crlf = chars_of("\r\n");
    proof {
        reveal_strlit("\r\n");
    }
    let skip: usize = if starts_with(&after0, &crlf) {
        2
    } else if after0.len() >= 1 && after0[0] == '\n' {
        1
    } else {
        0
    };
    let after = sub_vec(&after0, skip, after0.len());
    proof {
        if skip == 0 {
            assert(after@ =~= after0@);
        }
    }
    let close = chars_of("```");
    let e = match find_first(&after, &close) {
        Some(e) => e,
        None => {
            return None;
        },
    };
    let body = sub_vec(&after, 0, e);
    let trimmed = trim(&body);
    Some(string_of(&trimmed))
}

/// Extracts the body of the first fenced block of any kind.
pub fn extract_any_fenced_block(s: &str) -> (r: Option<String>)
    ensures
        match r {
            Some(x) => spec_extract_any_fenced_block(s@) == Some(x@),
            None => spec_extract_any_fenced_block(s@) is None,
        },
{
    let v = chars_of(s);
    extract_any_fenced_block_chars(&v)
}

fn extract_any_fenced_block_chars(v: &Vec<char>) -> (r: Option<String>)
    ensures
        match r {
            Some(x) => spec_extract_any_fenced_block(v@) == Some(x@),
            None => spec_extract_any_fenced_block(v@) is None,
        },
{
    let open = chars_of("```");
    proof {
        reveal_strlit("```");
        reveal_strlit("\n");
    }
    let p = match find_first(v, &open) {
        Some(p) => p,
        None => {
            return None;
        },
    };
    let vlen = v.len();
    let after0 = sub_vec(v, p + 3, vlen);
    let nl = chars_of("\n");
    let after = match find_first(&after0, &nl) {
        Some(i) => sub_vec(&after0, i + 1, after0.len()),
        None => {
            let c = sub_vec(&after0, 0, after0.len());
            proof {
                assert(c@ =~= after0@);
            }
            c
        },
    };
    let e = match find_first(&after, &open) {
        Some(e) => e,
        None => {
            return None;
        },
    };
    let body = sub_vec(&after, 0, e);
    let trimmed = trim(&body);
    Some(string_of(&trimmed))
}

/// Whether the content structurally looks like an HTML document.
pub fn looks_like_html(content: &str) -> (r: bool)
    ensures
        r == spec_looks_like_html(content@),
{
    let v = chars_of(content);
    looks_like_html_chars(&v)
}

pub fn looks_like_html_chars(v: &Vec<char>) -> (r: bool)
    ensures
        r == spec_looks_like_html(v@),
{
    let open_html = chars_of("<html");
    let close_html = chars_of("</html>");
    let open_body = chars_of("<body");
    let close_body = chars_of("</body>");
    let doctype = chars_of("<!doctype html");
    (contains_ci(v, &open_html) && contains_ci(v, &close_html)) || (contains_ci(v, &open_body)
        && contains_ci(v, &close_body)) || (contains_ci(v, &doctype) && contains_ci(
        v,
        &close_html,
    ))
}

/// Recovers the HTML payload from a raw model response: the document block
/// if one is there, else the first html-tagged fenced block, else the first
/// fenced block of any kind, else the trimmed response itself.
pub fn post_process_html_response(content: &str) -> (r: String)
    ensures
        r@ == spec_post_process(content@),
{
    let raw = chars_of(content);
    let c = trim(&raw);
    match extract_html_document_block_chars(&c) {
        Some(x) => x,
        None => match {
            let fence = chars_of("```html");
            extract_fenced_block_chars(&c, &fence)
        } {
            Some(x) => x,
            None => match extract_any_fenced_block_chars(&c) {
                Some(x) => x,
                None => string_of(&c),
            },
        },
    }
}

} // verus!
