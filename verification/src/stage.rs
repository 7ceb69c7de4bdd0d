//! The per-stage processing glue: request assembly for the AI-driven
//! stages, the document wrapper of the scrape stage, the decision each
//! stage takes from a classified outcome, and the display form of an
//! item's timestamp.

use vstd::prelude::*;
use crate::gateway::{ChatClassification, ImageClassification};
use crate::provider::AiProviderType;
use vstd::string::StringExecFns;

verus! {

/// One message of a chat-completion request.
pub struct ChatMessage {
    pub role: String,
    pub content: String,
}

/// The two messages every rewrite request carries: the stage prompt as
/// the system message and the article content as the user message.
pub fn build_chat_messages(prompt: &str, content: &str) -> (r: Vec<ChatMessage>)
    ensures
        r@.len() == 2,
        r@[0].role@ == "system"@ && r@[0].content@ == prompt@,
        r@[1].role@ == "user"@ && r@[1].content@ == content@,
{
    let mut r: Vec<ChatMessage> = Vec::new();
    r.push(ChatMessage { role: String::from_str("system"), content: String::from_str(prompt) });
    r.push(ChatMessage { role: String::from_str("user"), content: String::from_str(content) });
    r
}

/// The single user prompt of an image request: image backends may ignore
/// system messages, so the stage prompt is embedded before the content.
pub fn compose_illustration_prompt(prompt: &str, content: &str) -> (r: String)
    ensures
        r@ == prompt@ + "\n\n"@ + content@,
{
    let mut r = String::from_str(prompt);
    r.append("\n\n");
    r.append(content);
    r
}

/// The chat-completion endpoint of each text backend.
pub fn chat_endpoint(provider: AiProviderType) -> (r: String)
    ensures
        provider == AiProviderType::OpenRouter ==> r@
            == "https://openrouter.ai/api/v1/chat/completions"@,
        provider == AiProviderType::Perplexity ==> r@
            == "https://api.perplexity.ai/chat/completions"@,
        provider == AiProviderType::Gemini ==> r@
            == "https://generativelanguage.googleapis.com/v1beta/openai/chat/completions"@,
{
    match provider {
        AiProviderType::OpenRouter => String::from_str(
            "https://openrouter.ai/api/v1/chat/completions",
        ),
        AiProviderType::Perplexity => String::from_str(
            "https://api.perplexity.ai/chat/completions",
        ),
        AiProviderType::Gemini => String::from_str(
            "https://generativelanguage.googleapis.com/v1beta/openai/chat/completions",
        ),
    }
}

/// What the rewrite stage does with a classified response.
pub enum ChatStep {
    /// Write this artifact and advance by the finish reason: also on a
    /// soft failure, whose best-effort payload is persisted for
    /// inspection.
    Persist { artifact: String, finish_reason: Option<String> },
    /// Nothing usable came back: a hard failure.
    Fatal,
}

/// Decides the rewrite stage's step: usable and soft-failed content is
/// persisted with its finish reason; an empty response is fatal.
pub fn chat_step(c: ChatClassification) -> (r: ChatStep)
    ensures
        ({
            match c {
                ChatClassification::Success { content, finish_reason } => r == ChatStep::Persist {
                    artifact: content,
                    finish_reason,
                },
                ChatClassification::SoftFailure { content, finish_reason } => r
                    == ChatStep::Persist { artifact: content, finish_reason },
                ChatClassification::EmptyChoices => r == ChatStep::Fatal,
            }
        }),
{
    match c {
        ChatClassification::Success { content, finish_reason } => ChatStep::Persist {
            artifact: content,
            finish_reason,
        },
        ChatClassification::SoftFailure { content, finish_reason } => ChatStep::Persist {
            artifact: content,
            finish_reason,
        },
        ChatClassification::EmptyChoices => ChatStep::Fatal,
    }
}

/// What the illustrate stage does with a classified response.
pub enum ImageStep {
    /// Write the validated image and report success.
    Persist { artifact: Vec<u8> },
    /// Nothing is written; advance by this finish reason (a bounded
    /// retry).
    Soft { finish_reason: Option<String> },
    /// Nothing usable came back: a hard failure.
    Fatal,
}

/// Decides the illustrate stage's step: a validated image is persisted;
/// a soft failure only advances the status; empty or undecodable
/// payloads are fatal.
pub fn image_step(c: ImageClassification) -> (r: ImageStep)
    ensures
        ({
            match c {
                ImageClassification::Image { bytes } => r == ImageStep::Persist {
                    artifact: bytes,
                },
                ImageClassification::SoftFailure { content, finish_reason } => r
                    == ImageStep::Soft { finish_reason },
                ImageClassification::EmptyImageData => r == ImageStep::Fatal,
                ImageClassification::BadBase64 => r == ImageStep::Fatal,
            }
        }),
{
    match c {
        ImageClassification::Image { bytes } => ImageStep::Persist { artifact: bytes },
        ImageClassification::SoftFailure { content: _, finish_reason } => ImageStep::Soft {
            finish_reason,
        },
        ImageClassification::EmptyImageData => ImageStep::Fatal,
        ImageClassification::BadBase64 => ImageStep::Fatal,
    }
}

/// The document the scrape stage persists: the extracted title and
/// content wrapped into a minimal HTML page.
pub fn wrap_scraped_document(title: &str, content: &str) -> (r: String)
    ensures
        r@ == "<!DOCTYPE html>\n<html>\n<head>\n    <meta charset=\"UTF-8\">\n    <title>"@
            + title@ + "</title>\n</head>\n<body>\n    <h1>"@ + title@ + "</h1>\n    "@ + content@
            + "\n</body>\n</html>"@,
{
    let mut r = String::from_str(
        "<!DOCTYPE html>\n<html>\n<head>\n    <meta charset=\"UTF-8\">\n    <title>",
    );
    r.append(title);
    r.append("</title>\n</head>\n<body>\n    <h1>");
    r.append(title);
    r.append("</h1>\n    ");
    r.append(content);
    r.append("\n</body>\n</html>");
    r
}

/// What the RFC 3339 display form of a timestamp is, as the date library
/// renders it: a function of the input alone.
pub uninterp spec fn rfc3339_reformatted(s: Seq<char>) -> Option<Seq<char>>;

/// Relies on chrono's `DateTime::parse_from_rfc3339` and `format`: a
/// deterministic parse of an RFC 3339 timestamp, rendered back without
/// its zone offset; it errs exactly on input the format does not accept.
#[verifier::external_body]
fn format_rfc3339(s: &str) -> (r: Option<String>)
    ensures
        match r {
            Some(x) => rfc3339_reformatted(s@) == Some(x@),
            None => rfc3339_reformatted(s@) is None,
        },
{
    match chrono::DateTime::parse_from_rfc3339(s) {
        Ok(dt) => Some(dt.format("%Y-%m-%d %H:%M:%S").to_string()),
        Err(_) => None,
    }
}

/// What the display form of a timestamp parsed under the given format
/// string is: a function of the two inputs alone.
pub uninterp spec fn naive_reformatted(s: Seq<char>, fmt: Seq<char>) -> Option<Seq<char>>;

/// Relies on chrono's `NaiveDateTime::parse_from_str` and `format`: a
/// deterministic parse under the given format string, rendered back in
/// the display form; it errs exactly on input the format does not
/// accept.
#[verifier::external_body]
fn format_naive(s: &str, fmt: &str) -> (r: Option<String>)
    ensures
        match r {
            Some(x) => naive_reformatted(s@, fmt@) == Some(x@),
            None => naive_reformatted(s@, fmt@) is None,
        },
{
    match chrono::NaiveDateTime::parse_from_str(s, fmt) {
        Ok(dt) => Some(dt.format("%Y-%m-%d %H:%M:%S").to_string()),
        Err(_) => None,
    }
}

/// The display form of an item's timestamp: parsed as RFC 3339 first,
/// then under the common zone-less formats in a fixed order, and used as
/// it stands when nothing parses.
pub open spec fn spec_parse_and_format_date(s: Seq<char>) -> Seq<char> {
    if rfc3339_reformatted(s) is Some {
        rfc3339_reformatted(s)->Some_0
    } else if naive_reformatted(s, "%Y-%m-%dT%H:%M:%S%.fZ"@) is Some {
        naive_reformatted(s, "%Y-%m-%dT%H:%M:%S%.fZ"@)->Some_0
    } else if naive_reformatted(s, "%Y-%m-%dT%H:%M:%SZ"@) is Some {
        naive_reformatted(s, "%Y-%m-%dT%H:%M:%SZ"@)->Some_0
    } else if naive_reformatted(s, "%Y-%m-%d %H:%M:%S%.f"@) is Some {
        naive_reformatted(s, "%Y-%m-%d %H:%M:%S%.f"@)->Some_0
    } else if naive_reformatted(s, "%Y-%m-%d %H:%M:%S"@) is Some {
        naive_reformatted(s, "%Y-%m-%d %H:%M:%S"@)->Some_0
    } else {
        s
    }
}

/// Formats an item's timestamp for display, falling back to the stored
/// text when no known format parses it.
pub fn parse_and_format_date(date_str: &str) -> (r: String)
    ensures
        r@ == spec_parse_and_format_date(date_str@),
{
    if let Some(x) = format_rfc3339(date_str) {
        return x;
    }
    if let Some(x) = format_naive(date_str, "%Y-%m-%dT%H:%M:%S%.fZ") {
        return x;
    }
    if let Some(x) = format_naive(date_str, "%Y-%m-%dT%H:%M:%SZ") {
        return x;
    }
    if let Some(x) = format_naive(date_str, "%Y-%m-%d %H:%M:%S%.f") {
        return x;
    }
    if let Some(x) = format_naive(date_str, "%Y-%m-%d %H:%M:%S") {
        return x;
    }
    String::from_str(date_str)
}

} // verus!
