//! Classification of AI provider responses into the pipeline's outcome
//! taxonomy: success, soft failure preserved with its best-effort payload,
//! and hard failure.

use vstd::prelude::*;
use crate::chars::{
    chars_of, dec_str, dec_val, digit_run, find_first, find_first_ci, first_match, first_match_ci,
    is_digit, is_prefix_ci, leading_digits, lemma_leading_digits_exact, lemma_digit_run_all_digits,
    parse_dec_u64, starts_with_ci, str_eq, string_of, sub_vec, take_utf8, utf8_len,
};
use crate::extract::{
    looks_like_html_chars, post_process_html_response, spec_looks_like_html, spec_post_process,
};
use crate::status::Outcome;
use base64::Engine;
use vstd::string::StringExecFns;

verus! {

/// The view of an optional string.
pub open spec fn opt_view(o: Option<String>) -> Option<Seq<char>> {
    match o {
        Some(s) => Some(s@),
        None => None,
    }
}

/// The provider self-reported a truncated or errored completion.
pub open spec fn spec_reason_is_failure(fr: Option<Seq<char>>) -> bool {
    fr == Some("error"@) || fr == Some("length"@)
}

/// What one text-generation attempt came to, after the transport is done.
#[derive(Debug, Clone)]
pub enum ChatClassification {
    /// Usable content; the finish reason carries no failure signal.
    Success { content: String, finish_reason: Option<String> },
    /// Recoverable failure; the best-effort extracted payload is preserved
    /// so the caller can inspect or persist it.
    SoftFailure { content: String, finish_reason: Option<String> },
    /// The provider returned no choices at all.
    EmptyChoices,
}

/// What one image-generation attempt came to.
#[derive(Debug, Clone)]
pub enum ImageClassification {
    /// A payload that starts with the PNG signature.
    Image { bytes: Vec<u8> },
    /// Recoverable failure with a diagnostic payload.
    SoftFailure { content: String, finish_reason: Option<String> },
    /// The provider returned no image data at all.
    EmptyImageData,
    /// The image payload was not valid base64.
    BadBase64,
}

/// Classifies a chat-completion response from its transport status and the
/// first choice's fields. A response with no choices is a hard failure. The
/// payload is always run through the extraction chain first; a non-success
/// transport status, a self-reported `error` or `length` finish, or content
/// that fails the HTML shape check each force a soft failure, the last two
/// with the finish reason forced to `error`.
pub fn classify_chat_response(
    http_success: bool,
    choices_empty: bool,
    content: &str,
    finish_reason: Option<String>,
) -> (r: ChatClassification)
    ensures
        choices_empty ==> r is EmptyChoices,
        !choices_empty ==> ({
            let cleaned = spec_post_process(content@);
            let fr = opt_view(finish_reason);
            if !http_success {
                if !spec_looks_like_html(cleaned) {
                    r matches ChatClassification::SoftFailure { content: c, finish_reason: f }
                        && c@ == cleaned && opt_view(f) == Some("error"@)
                } else {
                    r matches ChatClassification::SoftFailure { content: c, finish_reason: f }
                        && c@ == cleaned && opt_view(f) == fr
                }
            } else if spec_reason_is_failure(fr) {
                r matches ChatClassification::SoftFailure { content: c, finish_reason: f }
                    && c@ == cleaned && opt_view(f) == fr
            } else if !spec_looks_like_html(cleaned) {
                r matches ChatClassification::SoftFailure { content: c, finish_reason: f }
                    && c@ == cleaned && opt_view(f) == Some("error"@)
            } else {
                r matches ChatClassification::Success { content: c, finish_reason: f }
                    && c@ == cleaned && opt_view(f) == fr
            }
        }),
{
    if choices_empty {
        return ChatClassification::EmptyChoices;
    }
    let cleaned = post_process_html_response(content);
    let cleaned_chars = chars_of(cleaned.as_str());
    let looks = looks_like_html_chars(&cleaned_chars);
    let reason_failed = match &finish_reason {
        Some(fr) => str_eq(fr.as_str(), "error") || str_eq(fr.as_str(), "length"),
        None => false,
    };
    if !http_success {
        if !looks {
            return ChatClassification::SoftFailure {
                content: cleaned,
                finish_reason: Some(String::from_str("error")),
            };
        }
        return ChatClassification::SoftFailure { content: cleaned, finish_reason };
    }
    if reason_failed {
        return ChatClassification::SoftFailure { content: cleaned, finish_reason };
    }
    if !looks {
        return ChatClassification::SoftFailure {
            content: cleaned,
            finish_reason: Some(String::from_str("error")),
        };
    }
    ChatClassification::Success { content: cleaned, finish_reason }
}

/// The PNG file signature opens the payload.
pub open spec fn is_png(b: Seq<u8>) -> bool {
    b.len() >= 8 && b[0] == 0x89u8 && b[1] == 0x50u8 && b[2] == 0x4Eu8 && b[3] == 0x47u8 && b[4]
        == 0x0Du8 && b[5] == 0x0Au8 && b[6] == 0x1Au8 && b[7] == 0x0Au8
}

/// Whether the payload begins with the PNG signature.
pub fn looks_like_png(bytes: &Vec<u8>) -> (r: bool)
    ensures
        r == is_png(bytes@),
{
    bytes.len() >= 8 && bytes[0] == 0x89 && bytes[1] == 0x50 && bytes[2] == 0x4E && bytes[3]
        == 0x47 && bytes[4] == 0x0D && bytes[5] == 0x0A && bytes[6] == 0x1A && bytes[7] == 0x0A
}

/// What the base64 standard-alphabet decoder returns: a function of the
/// input alone, or nothing when the input is not valid base64.
pub uninterp spec fn base64_standard_decoded(s: Seq<char>) -> Option<Seq<u8>>;

/// Relies on base64's `STANDARD` engine `decode`: a deterministic decoder of
/// the RFC 4648 standard alphabet with padding; it errs exactly on invalid
/// input.
#[verifier::external_body]
fn base64_decode_standard(s: &str) -> (r: Option<Vec<u8>>)
    ensures
        match r {
            Some(v) => base64_standard_decoded(s@) == Some(v@),
            None => base64_standard_decoded(s@) is None,
        },
{
    match base64::engine::general_purpose::STANDARD.decode(s) {
        Ok(v) => Some(v),
        Err(_) => None,
    }
}

/// Validates a decoded image payload against the PNG signature: a payload
/// that does not open with it is forced to a soft failure with finish
/// reason `error`, even under a successful transport status.
pub fn classify_image_bytes(bytes: Vec<u8>) -> (r: ImageClassification)
    ensures
        is_png(bytes@) ==> (r matches ImageClassification::Image { bytes: b } && b@ == bytes@),
        !is_png(bytes@) ==> (r matches ImageClassification::SoftFailure {
            content: c,
            finish_reason: f,
        } && c@ == "Image bytes are not a valid PNG"@ && opt_view(f) == Some("error"@)),
{
    if looks_like_png(&bytes) {
        ImageClassification::Image { bytes }
    } else {
        ImageClassification::SoftFailure {
            content: String::from_str("Image bytes are not a valid PNG"),
            finish_reason: Some(String::from_str("error")),
        }
    }
}

/// Decodes a base64 image payload and validates it as a PNG.
fn classify_base64_image(b64: &str) -> (r: ImageClassification)
    ensures
        match base64_standard_decoded(b64@) {
            None => r is BadBase64,
            Some(bytes) => {
                if is_png(bytes) {
                    r matches ImageClassification::Image { bytes: b } && b@ == bytes
                } else {
                    r matches ImageClassification::SoftFailure { content: c, finish_reason: f }
                        && c@ == "Image bytes are not a valid PNG"@ && opt_view(f) == Some(
                        "error"@,
                    )
                }
            },
        },
{
    match base64_decode_standard(b64) {
        None => ImageClassification::BadBase64,
        Some(bytes) => classify_image_bytes(bytes),
    }
}

/// Classifies an image-generation response whose payload arrives as inline
/// base64 data. A non-success transport status is a soft failure carrying
/// the raw body; a missing payload is a hard failure; a decoded payload
/// without the PNG signature is forced to a soft failure.
pub fn parse_gemini_image_from_generate_content_response(
    http_success: bool,
    response_text: &str,
    inline_data: Option<&str>,
) -> (r: ImageClassification)
    ensures
        !http_success ==> (r matches ImageClassification::SoftFailure {
            content: c,
            finish_reason: f,
        } && c@ == response_text@ && opt_view(f) == Some("error"@)),
        http_success && inline_data is None ==> r is EmptyImageData,
        http_success ==> (inline_data matches Some(b) ==> match base64_standard_decoded(b@) {
            None => r is BadBase64,
            Some(bytes) => {
                if is_png(bytes) {
                    r matches ImageClassification::Image { bytes: v } && v@ == bytes
                } else {
                    r matches ImageClassification::SoftFailure { content: c, finish_reason: f }
                        && c@ == "Image bytes are not a valid PNG"@ && opt_view(f) == Some(
                        "error"@,
                    )
                }
            },
        }),
{
    if !http_success {
        return ImageClassification::SoftFailure {
            content: String::from_str(response_text),
            finish_reason: Some(String::from_str("error")),
        };
    }
    match inline_data {
        None => ImageClassification::EmptyImageData,
        Some(b64) => classify_base64_image(b64),
    }
}

/// The base64 payload of an image data URL: what follows the first
/// `;base64,` marker (or, leniently, `,base64,`) of a URL that opens with
/// `data:image/`, all matched without regard to ASCII case.
pub open spec fn spec_extract_base64_from_data_url(u: Seq<char>) -> Option<Seq<char>> {
    if !is_prefix_ci("data:image/"@, u) {
        None
    } else {
        match first_match_ci(u, ";base64,"@) {
            Some(i) => Some(u.subrange(i + ";base64,"@.len(), u.len() as int)),
            None => match first_match_ci(u, ",base64,"@) {
                Some(i) => Some(u.subrange(i + ",base64,"@.len(), u.len() as int)),
                None => None,
            },
        }
    }
}

/// Extracts the base64 payload from an image data URL.
pub fn extract_base64_from_data_url(url: &str) -> (r: Option<String>)
    ensures
        match r {
            Some(x) => spec_extract_base64_from_data_url(url@) == Some(x@),
            None => spec_extract_base64_from_data_url(url@) is None,
        },
{
    let v = chars_of(url);
    let prefix = chars_of("data:image/");
    if !starts_with_ci(&v, &prefix) {
        return None;
    }
    let vlen = v.len();
    let marker = chars_of(";base64,");
    proof {
        reveal_strlit(";base64,");
        reveal_strlit(",base64,");
    }
    if let Some(i) = find_first_ci(&v, &marker) {
        let tail = sub_vec(&v, i + marker.len(), vlen);
        return Some(string_of(&tail));
    }
    let fallback = chars_of(",base64,");
    if let Some(i) = find_first_ci(&v, &fallback) {
        let tail = sub_vec(&v, i + fallback.len(), vlen);
        return Some(string_of(&tail));
    }
    None
}

/// A step of handling an image-generation response whose payload may come
/// as a data URL or as an address that still has to be fetched.
#[derive(Debug, Clone)]
pub enum OpenRouterImageStep {
    /// The payload was classified from the response alone.
    Classified(ImageClassification),
    /// The caller must fetch this address and classify the bytes it serves
    /// with `classify_image_bytes`.
    FetchUrl(String),
}

/// Classifies an image-generation chat response. A non-success transport
/// status is a soft failure carrying the raw body; a missing image address
/// is a hard failure; a data URL is decoded and validated here; any other
/// address is handed back for fetching.
pub fn parse_openrouter_image_from_chat_response(
    http_success: bool,
    response_text: &str,
    image_url: Option<&str>,
) -> (r: OpenRouterImageStep)
    ensures
        !http_success ==> (r matches OpenRouterImageStep::Classified(
            ImageClassification::SoftFailure { content: c, finish_reason: f },
        ) && c@ == response_text@ && opt_view(f) == Some("error"@)),
        http_success && image_url is None ==> (r matches OpenRouterImageStep::Classified(
            ImageClassification::EmptyImageData,
        )),
        http_success ==> (image_url matches Some(u) ==> match spec_extract_base64_from_data_url(
            u@,
        ) {
            Some(b64) => match base64_standard_decoded(b64) {
                None => r matches OpenRouterImageStep::Classified(ImageClassification::BadBase64),
                Some(bytes) => {
                    if is_png(bytes) {
                        r matches OpenRouterImageStep::Classified(ImageClassification::Image {
                            bytes: v,
                        }) && v@ == bytes
                    } else {
                        r matches OpenRouterImageStep::Classified(
                            ImageClassification::SoftFailure { content: c, finish_reason: f },
                        ) && c@ == "Image bytes are not a valid PNG"@ && opt_view(f) == Some(
                            "error"@,
                        )
                    }
                },
            },
            None => r matches OpenRouterImageStep::FetchUrl(a) && a@ == u@,
        }),
{
    if !http_success {
        return OpenRouterImageStep::Classified(ImageClassification::SoftFailure {
            content: String::from_str(response_text),
            finish_reason: Some(String::from_str("error")),
        });
    }
    match image_url {
        None => OpenRouterImageStep::Classified(ImageClassification::EmptyImageData),
        Some(u) => match extract_base64_from_data_url(u) {
            Some(b64) => OpenRouterImageStep::Classified(classify_base64_image(b64.as_str())),
            None => OpenRouterImageStep::FetchUrl(String::from_str(u)),
        },
    }
}

/// A diagnostic string cut to at most `max_len` characters, with a note of
/// the full length when it was cut.
pub open spec fn spec_truncate_for_log(s: Seq<char>, max_len: int) -> Seq<char> {
    if utf8_len(s) <= max_len {
        s
    } else {
        take_utf8(s, max_len) + "... [truncated, total_len="@ + dec_str(utf8_len(s) as nat)
            + "]"@
    }
}

/// Cuts a diagnostic string for logging. `max_len` and the reported total
/// are in UTF-8 bytes; the cut falls on the last character boundary
/// within the limit.
pub fn truncate_for_log(s: &str, max_len: usize) -> (r: String)
    requires
        4 * s@.len() <= usize::MAX,
    ensures
        r@ == spec_truncate_for_log(s@, max_len as int),
{
    let v = chars_of(s);
    let total = crate::chars::utf8_len_of(&v);
    if total <= max_len {
        return String::from_str(s);
    }
    let prefix = crate::chars::take_utf8_prefix(&v, max_len);
    let mut out = string_of(&prefix);
    out.append("... [truncated, total_len=");
    let digits = crate::chars::dec_chars_of(total as u64);
    proof {
        assert(total as u64 as nat == total as nat);
    }
    out.append(string_of(&digits).as_str());
    out.append("]");
    out
}

/// The seconds value of the first `retry_after` field of a rate-limit
/// diagnostic: the first run of digits after the first colon that follows
/// the first `retry_after`; nothing when any of those is missing or the
/// value does not fit in 64 bits.
pub open spec fn spec_extract_retry_after(m: Seq<char>) -> Option<int> {
    match first_match(m, "retry_after"@) {
        None => None,
        Some(st) => {
            let tail = m.subrange(st, m.len() as int);
            match first_match(tail, ":"@) {
                None => None,
                Some(vs) => {
                    let value = m.subrange(st + vs + 1, m.len() as int);
                    let run = digit_run(value);
                    if run.len() == 0 {
                        None
                    } else if dec_val(run) > u64::MAX {
                        None
                    } else {
                        Some(dec_val(run))
                    }
                },
            }
        },
    }
}

/// Extracts the `retry_after` seconds from a rate-limit error message.
pub fn extract_retry_after(error_msg: &str) -> (r: Option<u64>)
    ensures
        match r {
            Some(x) => spec_extract_retry_after(error_msg@) == Some(x as int),
            None => spec_extract_retry_after(error_msg@) is None,
        },
{
    let m = chars_of(error_msg);
    let mlen = m.len();
    let key = chars_of("retry_after");
    let st = match find_first(&m, &key) {
        Some(st) => st,
        None => {
            return None;
        },
    };
    let tail = sub_vec(&m, st, mlen);
    let colon = chars_of(":");
    proof {
        reveal_strlit(":");
    }
    let vs = match find_first(&tail, &colon) {
        Some(vs) => vs,
        None => {
            return None;
        },
    };
    let value = sub_vec(&m, st + vs + 1, mlen);
    let run = digit_run_of(&value);
    if run.len() == 0 {
        return None;
    }
    proof {
        lemma_digit_run_all_digits(value@);
    }
    parse_dec_u64(&run)
}

/// The first maximal run of decimal digits in `v`.
fn digit_run_of(v: &Vec<char>) -> (r: Vec<char>)
    ensures
        r@ == digit_run(v@),
{
    let n = v.len();
    proof {
        assert(v@.subrange(0, n as int) =~= v@);
    }
    let mut i: usize = 0;
    while i < n && !crate::chars::char_is_digit(v[i])
        invariant
            i <= n,
            n == v@.len(),
            digit_run(v@) == digit_run(v@.subrange(i as int, n as int)),
        decreases n - i,
    {
        proof {
            let cur = v@.subrange(i as int, n as int);
            assert(cur[0] == v@[i as int]);
            assert(cur.drop_first() =~= v@.subrange(i + 1, n as int));
        }
        i = i + 1;
    }
    if i == n {
        proof {
            assert(v@.subrange(n as int, n as int) =~= Seq::<char>::empty());
        }
        return Vec::new();
    }
    let start = i;
    let mut j: usize = start;
    while j < n && crate::chars::char_is_digit(v[j])
        invariant
            start <= j <= n,
            n == v@.len(),
            forall|t: int| start <= t < j ==> is_digit(v@[t]),
        decreases n - j,
    {
        j = j + 1;
    }
    let run = sub_vec(v, start, j);
    proof {
        let tail = v@.subrange(start as int, n as int);
        assert(is_digit(tail[0]));
        assert(digit_run(tail) == leading_digits(tail));
        assert(forall|t: int| 0 <= t < j - start ==> is_digit(#[trigger] tail[t]));
        lemma_leading_digits_exact(tail, j - start);
        assert(tail.subrange(0, j - start) =~= v@.subrange(start as int, j as int));
    }
    run
}

/// The stage outcome that a finish reason signals: `error` and `length` are
/// soft failures, everything else reports success.
pub fn outcome_for_finish_reason(finish_reason: &Option<String>) -> (r: Outcome)
    ensures
        r == (if spec_reason_is_failure(opt_view(*finish_reason)) {
            Outcome::SoftFailure
        } else {
            Outcome::Success
        }),
{
    match finish_reason {
        Some(fr) => {
            if str_eq(fr.as_str(), "error") || str_eq(fr.as_str(), "length") {
                Outcome::SoftFailure
            } else {
                Outcome::Success
            }
        },
        None => Outcome::Success,
    }
}

} // verus!
