//! Ingestion: the stable content fingerprint of an item, the assembly of
//! a feed entry into a new item, and the names under which statuses are
//! persisted.

use vstd::prelude::*;
use crate::chars::{chars_of, is_prefix, starts_with, str_eq, string_of, trim, trim_of};
use crate::status::Status;
use sha2::Digest;
use vstd::string::StringExecFns;
use vstd::string::StringSliceAdditionalSpecFns;

verus! {

/// What the SHA-256 digest of the data is: a function of the input alone.
pub uninterp spec fn sha256_digest(data: Seq<u8>) -> Seq<u8>;

/// Relies on sha2's `Sha256` (through `Digest::digest`): a 32-byte digest
/// that depends on the input bytes alone.
#[verifier::external_body]
fn sha256_of(data: &[u8]) -> (r: Vec<u8>)
    ensures
        r@ == sha256_digest(data@),
        r@.len() == 32,
{
    sha2::Sha256::digest(data).to_vec()
}

/// The lower-case hexadecimal digit for `d`.
pub open spec fn hex_digit(d: int) -> char {
    if d == 0 {
        '0'
    } else if d == 1 {
        '1'
    } else if d == 2 {
        '2'
    } else if d == 3 {
        '3'
    } else if d == 4 {
        '4'
    } else if d == 5 {
        '5'
    } else if d == 6 {
        '6'
    } else if d == 7 {
        '7'
    } else if d == 8 {
        '8'
    } else if d == 9 {
        '9'
    } else if d == 10 {
        'a'
    } else if d == 11 {
        'b'
    } else if d == 12 {
        'c'
    } else if d == 13 {
        'd'
    } else if d == 14 {
        'e'
    } else {
        'f'
    }
}

/// The lower-case hexadecimal form of the data: two digits per byte, in
/// order.
pub open spec fn hex_of(data: Seq<u8>) -> Seq<char>
    decreases data.len(),
{
    if data.len() == 0 {
        Seq::empty()
    } else {
        seq![hex_digit(data.first() as int / 16), hex_digit(data.first() as int % 16)] + hex_of(
            data.drop_first(),
        )
    }
}

pub proof fn lemma_hex_of_len(data: Seq<u8>)
    ensures
        hex_of(data).len() == 2 * data.len(),
    decreases data.len(),
{
    if data.len() > 0 {
        lemma_hex_of_len(data.drop_first());
    }
}

/// Relies on hex::encode: two lower-case hexadecimal digits per input
/// byte, in order.
#[verifier::external_body]
fn hex_encode(data: &[u8]) -> (r: String)
    ensures
        r@ == hex_of(data@),
{
    hex::encode(data)
}

/// The stable content fingerprint of an item: the lower-case hex form of
/// the SHA-256 digest of the source address's UTF-8 bytes. Immutable and
/// unique per address.
pub fn generate_id(url: &str) -> (r: String)
    ensures
        r@ == hex_of(sha256_digest(url.spec_bytes())),
        r@.len() == 64,
{
    let digest = sha256_of(url.as_bytes());
    let r = hex_encode(digest.as_slice());
    proof {
        lemma_hex_of_len(sha256_digest(url.spec_bytes()));
    }
    r
}

/// The unit of work, as persisted: provenance fields are immutable, the
/// status is the only routing field.
pub struct NewsItem {
    pub id: String,
    pub title: String,
    pub url: String,
    pub date: String,
    pub status: Status,
}

/// Assembles a feed entry into a new item: entries without a title, or
/// whose address leaves the feed, are skipped; the fingerprint comes from
/// the address; a missing or empty entry timestamp falls back to the
/// given current time.
pub fn feed_item_from_parts(
    title: &str,
    href: &str,
    feed_url: &str,
    datetime_attr: Option<&str>,
    fallback_now: &str,
) -> (r: Option<NewsItem>)
    ensures
        match r {
            None => trim_of(title@).len() == 0 || !is_prefix(feed_url@, href@),
            Some(item) => trim_of(title@).len() > 0 && is_prefix(feed_url@, href@) && item.id@
                == hex_of(sha256_digest(href.spec_bytes())) && item.title@ == trim_of(title@)
                && item.url@ == href@ && item.status == Status::New && item.date@ == (
            match datetime_attr {
                Some(d) => if d@.len() > 0 {
                    d@
                } else {
                    fallback_now@
                },
                None => fallback_now@,
            }),
        },
{
    let tv = chars_of(title);
    let t = trim(&tv);
    if t.len() == 0 {
        return None;
    }
    let hv = chars_of(href);
    let fv = chars_of(feed_url);
    if !starts_with(&hv, &fv) {
        return None;
    }
    let id = generate_id(href);
    let date = match datetime_attr {
        Some(d) => if d.unicode_len() > 0 {
            String::from_str(d)
        } else {
            String::from_str(fallback_now)
        },
        None => String::from_str(fallback_now),
    };
    Some(
        NewsItem {
            id,
            title: string_of(&t),
            url: String::from_str(href),
            date,
            status: Status::New,
        },
    )
}

/// The name under which a status is persisted.
pub open spec fn spec_status_name(s: Status) -> Seq<char> {
    match s {
        Status::New => "new"@,
        Status::Downloaded => "downloaded"@,
        Status::Scraped => "scraped"@,
        Status::Translated => "translated"@,
        Status::Rewriter => "rewriter"@,
        Status::RewriterRetry => "rewriter_retry"@,
        Status::RewriterError => "rewriter_error"@,
        Status::Illustrator => "illustrator"@,
        Status::IllustratorRetry => "illustrator_retry"@,
        Status::IllustratorError => "illustrator_error"@,
        Status::Published => "published"@,
        Status::PublishError => "publish_error"@,
    }
}

/// The persisted name of a status.
pub fn status_name(s: Status) -> (r: String)
    ensures
        r@ == spec_status_name(s),
{
    match s {
        Status::New => String::from_str("new"),
        Status::Downloaded => String::from_str("downloaded"),
        Status::Scraped => String::from_str("scraped"),
        Status::Translated => String::from_str("translated"),
        Status::Rewriter => String::from_str("rewriter"),
        Status::RewriterRetry => String::from_str("rewriter_retry"),
        Status::RewriterError => String::from_str("rewriter_error"),
        Status::Illustrator => String::from_str("illustrator"),
        Status::IllustratorRetry => String::from_str("illustrator_retry"),
        Status::IllustratorError => String::from_str("illustrator_error"),
        Status::Published => String::from_str("published"),
        Status::PublishError => String::from_str("publish_error"),
    }
}

/// The status persisted under the given name, if it is one.
pub fn parse_status(name: &str) -> (r: Option<Status>)
    ensures
        match r {
            Some(s) => name@ == spec_status_name(s),
            None => forall|s: Status| name@ != spec_status_name(s),
        },
{
    if str_eq(name, "new") {
        Some(Status::New)
    } else if str_eq(name, "downloaded") {
        Some(Status::Downloaded)
    } else if str_eq(name, "scraped") {
        Some(Status::Scraped)
    } else if str_eq(name, "translated") {
        Some(Status::Translated)
    } else if str_eq(name, "rewriter") {
        Some(Status::Rewriter)
    } else if str_eq(name, "rewriter_retry") {
        Some(Status::RewriterRetry)
    } else if str_eq(name, "rewriter_error") {
        Some(Status::RewriterError)
    } else if str_eq(name, "illustrator") {
        Some(Status::Illustrator)
    } else if str_eq(name, "illustrator_retry") {
        Some(Status::IllustratorRetry)
    } else if str_eq(name, "illustrator_error") {
        Some(Status::IllustratorError)
    } else if str_eq(name, "published") {
        Some(Status::Published)
    } else if str_eq(name, "publish_error") {
        Some(Status::PublishError)
    } else {
        proof {
            assert forall|s: Status| name@ != spec_status_name(s) by {
                match s {
                    Status::New => assert(name@ != "new"@),
                    Status::Downloaded => assert(name@ != "downloaded"@),
                    Status::Scraped => assert(name@ != "scraped"@),
                    Status::Translated => assert(name@ != "translated"@),
                    Status::Rewriter => assert(name@ != "rewriter"@),
                    Status::RewriterRetry => assert(name@ != "rewriter_retry"@),
                    Status::RewriterError => assert(name@ != "rewriter_error"@),
                    Status::Illustrator => assert(name@ != "illustrator"@),
                    Status::IllustratorRetry => assert(name@ != "illustrator_retry"@),
                    Status::IllustratorError => assert(name@ != "illustrator_error"@),
                    Status::Published => assert(name@ != "published"@),
                    Status::PublishError => assert(name@ != "publish_error"@),
                }
            }
        }
        None
    }
}

} // verus!
