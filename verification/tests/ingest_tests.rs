use newspipe::extract::{
    extract_any_fenced_block, extract_fenced_block, extract_html_document_block, looks_like_html,
    post_process_html_response,
};
use newspipe::ingest::{feed_item_from_parts, generate_id, parse_status, status_name};
use newspipe::stage::{
    build_chat_messages, chat_endpoint, compose_illustration_prompt, parse_and_format_date,
    wrap_scraped_document,
};
use newspipe::provider::AiProviderType;
use newspipe::status::Status;

#[test]
fn id_is_the_hex_sha256_of_the_address() {
    // SHA-256 of "abc"
    assert_eq!(
        generate_id("abc"),
        "ba7816bf8f01cfea414140de5dae2223b00361a396177a9cb410ff61f20015ad"
    );
    assert_eq!(generate_id("https://example.com/article").len(), 64);
}

#[test]
fn feed_entries_without_title_or_off_feed_are_skipped() {
    let feed = "https://news.example/";
    assert!(feed_item_from_parts("  ", "https://news.example/a", feed, None, "now").is_none());
    assert!(feed_item_from_parts("T", "https://other.example/a", feed, None, "now").is_none());
}

#[test]
fn feed_entry_assembles_with_date_fallback() {
    let feed = "https://news.example/";
    let item = feed_item_from_parts(
        " Title ",
        "https://news.example/a",
        feed,
        Some(""),
        "2024-05-06T07:08:09+02:00",
    )
    .unwrap();
    assert_eq!(item.title, "Title");
    assert_eq!(item.url, "https://news.example/a");
    assert_eq!(item.date, "2024-05-06T07:08:09+02:00");
    assert_eq!(item.status, Status::New);
    assert_eq!(item.id, generate_id("https://news.example/a"));

    let dated = feed_item_from_parts(
        "T",
        "https://news.example/b",
        feed,
        Some("2024-01-01T00:00:00+02:00"),
        "now",
    )
    .unwrap();
    assert_eq!(dated.date, "2024-01-01T00:00:00+02:00");
}

#[test]
fn status_names_round_trip() {
    for s in [
        Status::New,
        Status::Downloaded,
        Status::Scraped,
        Status::Translated,
        Status::Rewriter,
        Status::RewriterRetry,
        Status::RewriterError,
        Status::Illustrator,
        Status::IllustratorRetry,
        Status::IllustratorError,
        Status::Published,
        Status::PublishError,
    ] {
        assert_eq!(parse_status(status_name(s).as_str()), Some(s));
    }
    assert_eq!(parse_status("unknown"), None);
}

#[test]
fn document_block_extraction() {
    let s = "Sure, here it is: <html><body>x</body></html> hope that helps";
    assert_eq!(
        extract_html_document_block(s).as_deref(),
        Some("<html><body>x</body></html>")
    );
    assert!(extract_html_document_block("no markers here").is_none());
    // crossing markers yield nothing
    assert!(extract_html_document_block("</html> then <html").is_none());
}

#[test]
fn document_block_uses_last_close() {
    let s = "<html>a</html> junk </html>";
    assert_eq!(extract_html_document_block(s).as_deref(), Some("<html>a</html> junk </html>"));
}

#[test]
fn fenced_block_extraction() {
    let s = "intro\n```html\n<p>x</p>\n```\noutro";
    assert_eq!(extract_fenced_block(s, "```html").as_deref(), Some("<p>x</p>"));
    assert!(extract_fenced_block("no fence", "```html").is_none());
    assert!(extract_fenced_block("```html never closed", "```html").is_none());
}

#[test]
fn any_fenced_block_skips_language_line() {
    let s = "text\n```xml\n<a/>\n```\nrest";
    assert_eq!(extract_any_fenced_block(s).as_deref(), Some("<a/>"));
}

#[test]
fn post_process_prefers_document_over_fences() {
    let s = "```html\n<p>f</p>\n```\n<html><body>doc</body></html>";
    assert_eq!(post_process_html_response(s), "<html><body>doc</body></html>");
    assert_eq!(post_process_html_response("  plain  "), "plain");
}

#[test]
fn html_shape_check() {
    assert!(looks_like_html("<HTML>..</HTML>"));
    assert!(looks_like_html("<body class=x>..</body>"));
    assert!(looks_like_html("<!DOCTYPE HTML><html>..</html>"));
    assert!(!looks_like_html("just some text with <b>bold</b>"));
}

#[test]
fn chat_messages_carry_prompt_and_content() {
    let m = build_chat_messages("be brief", "the article");
    assert_eq!(m.len(), 2);
    assert_eq!(m[0].role, "system");
    assert_eq!(m[0].content, "be brief");
    assert_eq!(m[1].role, "user");
    assert_eq!(m[1].content, "the article");
}

#[test]
fn illustration_prompt_embeds_stage_prompt() {
    assert_eq!(compose_illustration_prompt("draw", "text"), "draw\n\ntext");
}

#[test]
fn endpoints_per_provider() {
    assert_eq!(
        chat_endpoint(AiProviderType::OpenRouter),
        "https://openrouter.ai/api/v1/chat/completions"
    );
    assert_eq!(
        chat_endpoint(AiProviderType::Perplexity),
        "https://api.perplexity.ai/chat/completions"
    );
    assert_eq!(
        chat_endpoint(AiProviderType::Gemini),
        "https://generativelanguage.googleapis.com/v1beta/openai/chat/completions"
    );
}

#[test]
fn scraped_document_wrapper() {
    let doc = wrap_scraped_document("T", "<p>c</p>");
    assert!(doc.starts_with("<!DOCTYPE html>"));
    assert!(doc.contains("<title>T</title>"));
    assert!(doc.contains("<h1>T</h1>"));
    assert!(doc.contains("<p>c</p>"));
    assert!(doc.ends_with("</body>\n</html>"));
}

#[test]
fn dates_reformat_for_display() {
    assert_eq!(
        parse_and_format_date("2024-01-02T03:04:05+02:00"),
        "2024-01-02 03:04:05"
    );
    assert_eq!(parse_and_format_date("2024-01-02T03:04:05Z"), "2024-01-02 03:04:05");
    assert_eq!(
        parse_and_format_date("2024-01-02 03:04:05.123"),
        "2024-01-02 03:04:05"
    );
    assert_eq!(parse_and_format_date("not a date"), "not a date");
}
