//! Publishing decisions of the short-form surface: the hard length limit
//! in UTF-16 units, the byte-budget truncation of the long-form fallback,
//! and the single delayed retry on a rate-limit response.

use vstd::prelude::*;
use crate::chars::{
    chars_of, contains, contains_sub, lemma_take_utf8_len, lemma_utf8_len_add, string_of,
    sub_vec, take_utf8, take_utf8_prefix, trim, trim_of, utf8_len, utf8_len_of, utf16_len,
};
use crate::gateway::spec_extract_retry_after;
use crate::markup::{seq_ends_with, spec_strip_tags};
use vstd::string::StringExecFns;

verus! {

/// The short-form surface rejects messages over this many UTF-16 code
/// units, counted after entities are parsed.
pub const TELEGRAM_SENDMESSAGE_TEXT_LIMIT_UTF16: usize = 4096;

/// The long-form surface rejects content over this many bytes.
pub const TELEGRAPH_CREATEPAGE_CONTENT_LIMIT_BYTES: usize = 65536;

/// Where a message goes: straight to the short-form surface, or to the
/// long-form fallback with a short reference message.
#[derive(Clone, Copy, Debug, PartialEq, Eq, Structural)]
pub enum PublishRoute {
    Direct,
    LongFormFallback,
}

/// Chooses the publishing route: the long-form fallback exactly when the
/// message, stripped to plain text and measured in UTF-16 code units,
/// exceeds the short-form limit.
pub fn choose_publish_route(content: &str) -> (r: PublishRoute)
    requires
        2 * content@.len() <= usize::MAX,
    ensures
        r == PublishRoute::Direct <==> utf16_len(spec_strip_tags(content@))
            <= TELEGRAM_SENDMESSAGE_TEXT_LIMIT_UTF16,
{
    let len = crate::markup::telegram_text_len_utf16_after_entities_guess(content);
    if len > TELEGRAM_SENDMESSAGE_TEXT_LIMIT_UTF16 {
        PublishRoute::LongFormFallback
    } else {
        PublishRoute::Direct
    }
}

/// The page title after sanitizing: trimmed, defaulting when empty, and
/// cut to the longest accepted length.
pub open spec fn spec_sanitize_title(s: Seq<char>) -> Seq<char> {
    let t = trim_of(s);
    if t.len() == 0 {
        "News"@
    } else if t.len() <= 256 {
        t
    } else {
        t.subrange(0, 256)
    }
}

/// Sanitizes a page title for the long-form surface: trims it, falls back
/// to a stock title when nothing is left, and keeps at most 256
/// characters.
pub fn sanitize_telegraph_title(title: &str) -> (r: String)
    ensures
        r@ == spec_sanitize_title(title@),
{
    let v = chars_of(title);
    let t = trim(&v);
    if t.len() == 0 {
        String::from_str("News")
    } else if t.len() <= 256 {
        string_of(&t)
    } else {
        let cut = sub_vec(&t, 0, 256);
        string_of(&cut)
    }
}

/// The marker appended where content was cut.
pub open spec fn truncation_marker() -> Seq<char> {
    "\n\n[truncated]"@
}

/// The content cut to the byte budget: unchanged when it fits; otherwise
/// the longest character-aligned front part that, with the truncation
/// marker, stays within the budget.
pub open spec fn spec_truncate_utf8(s: Seq<char>, max_bytes: int) -> Seq<char> {
    if utf8_len(s) <= max_bytes {
        s
    } else {
        let budget = if max_bytes >= 13 {
            max_bytes - 13
        } else {
            0
        };
        take_utf8(s, budget) + truncation_marker()
    }
}

proof fn lemma_marker_utf8_len()
    ensures
        truncation_marker().len() == 13,
        utf8_len(truncation_marker()) == 13,
{
    reveal_strlit("\n\n[truncated]");
    reveal_with_fuel(utf8_len, 15);
}

/// Cuts content to the byte budget along character boundaries, appending
/// the truncation marker. Content that fits passes unchanged; content
/// that is cut ends with the marker and, for any budget that has room for
/// the marker, stays within the budget.
pub fn truncate_to_max_bytes_utf8(s: &str, max_bytes: usize) -> (r: String)
    requires
        4 * s@.len() <= usize::MAX,
    ensures
        r@ == spec_truncate_utf8(s@, max_bytes as int),
        utf8_len(s@) <= max_bytes ==> r@ == s@,
        utf8_len(s@) > max_bytes && max_bytes >= 13 ==> utf8_len(r@) <= max_bytes
            && seq_ends_with(r@, truncation_marker()),
{
    let v = chars_of(s);
    let total = utf8_len_of(&v);
    if total <= max_bytes {
        return String::from_str(s);
    }
    let budget: usize = if max_bytes >= 13 {
        max_bytes - 13
    } else {
        0
    };
    let out = take_utf8_prefix(&v, budget);
    let mut r = string_of(&out);
    r.append("\n\n[truncated]");
    proof {
        lemma_marker_utf8_len();
        lemma_take_utf8_len(v@, budget as int);
        lemma_utf8_len_add(out@, truncation_marker());
        assert(r@.subrange(r@.len() - 13, r@.len() as int) =~= truncation_marker());
    }
    r
}

/// What the publisher does about a failed send: exactly one delayed retry
/// when the surface reported a rate limit, with the server's delay when
/// one can be read from the diagnostic and a stock delay otherwise;
/// everything else fails the item.
#[derive(Debug, Clone, PartialEq, Eq, Structural)]
pub enum PublishFailureAction {
    RetryAfter(u64),
    Fail,
}

/// Decides the response to a failed publish from its diagnostic message.
pub fn publish_failure_action(error_msg: &str) -> (r: PublishFailureAction)
    ensures
        contains_sub(error_msg@, "Too Many Requests"@) ==> r == (
        match spec_extract_retry_after(error_msg@) {
            Some(v) => PublishFailureAction::RetryAfter(v as u64),
            None => PublishFailureAction::RetryAfter(60u64),
        }),
        !contains_sub(error_msg@, "Too Many Requests"@) ==> r == PublishFailureAction::Fail,
{
    let m = chars_of(error_msg);
    let needle = chars_of("Too Many Requests");
    if contains(&m, &needle) {
        match crate::gateway::extract_retry_after(error_msg) {
            Some(v) => PublishFailureAction::RetryAfter(v),
            None => PublishFailureAction::RetryAfter(60),
        }
    } else {
        PublishFailureAction::Fail
    }
}

} // verus!
