use newspipe::publish::{
    choose_publish_route, publish_failure_action, sanitize_telegraph_title,
    truncate_to_max_bytes_utf8, PublishFailureAction, PublishRoute,
    TELEGRAPH_CREATEPAGE_CONTENT_LIMIT_BYTES, TELEGRAM_SENDMESSAGE_TEXT_LIMIT_UTF16,
};

#[test]
fn payload_at_limit_goes_direct() {
    let content = "a".repeat(TELEGRAM_SENDMESSAGE_TEXT_LIMIT_UTF16);
    assert_eq!(choose_publish_route(content.as_str()), PublishRoute::Direct);
}

#[test]
fn payload_one_over_limit_falls_back() {
    let content = "a".repeat(TELEGRAM_SENDMESSAGE_TEXT_LIMIT_UTF16 + 1);
    assert_eq!(choose_publish_route(content.as_str()), PublishRoute::LongFormFallback);
}

#[test]
fn route_measures_after_stripping_tags() {
    // the tags do not count against the limit
    let inner = "a".repeat(TELEGRAM_SENDMESSAGE_TEXT_LIMIT_UTF16 - 1);
    let content = format!("<b>{}</b>", inner);
    assert_eq!(choose_publish_route(content.as_str()), PublishRoute::Direct);
}

#[test]
fn long_payload_truncates_within_budget() {
    // 35,000 two-byte characters: 70,000 bytes against a 65,536-byte budget
    let payload = "é".repeat(35000);
    assert_eq!(payload.len(), 70000);
    let out = truncate_to_max_bytes_utf8(
        payload.as_str(),
        TELEGRAPH_CREATEPAGE_CONTENT_LIMIT_BYTES,
    );
    assert!(out.len() <= TELEGRAPH_CREATEPAGE_CONTENT_LIMIT_BYTES);
    assert!(out.ends_with("\n\n[truncated]"));
    // character-aligned cut: re-reading the bytes as UTF-8 succeeds
    assert!(String::from_utf8(out.clone().into_bytes()).is_ok());
}

#[test]
fn short_payload_passes_unchanged() {
    let payload = "short text";
    assert_eq!(truncate_to_max_bytes_utf8(payload, 64), payload);
}

#[test]
fn truncation_cuts_on_character_boundary() {
    // budget 13 (marker) + 3: room for one two-byte character only
    let long = "é".repeat(20);
    let out = truncate_to_max_bytes_utf8(long.as_str(), 16);
    assert_eq!(out, "é\n\n[truncated]");
}

#[test]
fn titles_are_trimmed_defaulted_and_cut() {
    assert_eq!(sanitize_telegraph_title("  A title  "), "A title");
    assert_eq!(sanitize_telegraph_title("   "), "News");
    let long = "t".repeat(300);
    assert_eq!(sanitize_telegraph_title(long.as_str()).chars().count(), 256);
}

#[test]
fn rate_limit_triggers_one_delayed_retry() {
    let msg = "Telegram API error: Too Many Requests, \"retry_after\":7";
    assert_eq!(publish_failure_action(msg), PublishFailureAction::RetryAfter(7));
}

#[test]
fn rate_limit_without_delay_uses_stock_delay() {
    let msg = "Telegram API error: Too Many Requests";
    assert_eq!(publish_failure_action(msg), PublishFailureAction::RetryAfter(60));
}

#[test]
fn other_failures_fail_the_item() {
    let msg = "Telegram API error: Bad Request: message is too long";
    assert_eq!(publish_failure_action(msg), PublishFailureAction::Fail);
}
