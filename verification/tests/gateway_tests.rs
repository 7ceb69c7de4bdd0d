use base64::Engine;
use newspipe::gateway::{
    classify_chat_response, classify_image_bytes, extract_base64_from_data_url,
    extract_retry_after, looks_like_png, outcome_for_finish_reason,
    parse_gemini_image_from_generate_content_response,
    parse_openrouter_image_from_chat_response, truncate_for_log, ChatClassification,
    ImageClassification, OpenRouterImageStep,
};
use newspipe::status::Outcome;

const PNG_HEADER: [u8; 8] = [0x89, 0x50, 0x4E, 0x47, 0x0D, 0x0A, 0x1A, 0x0A];

fn png_bytes() -> Vec<u8> {
    let mut v = PNG_HEADER.to_vec();
    v.extend_from_slice(&[0, 0, 0, 13]);
    v
}

#[test]
fn truncated_completion_is_soft_failure_with_payload() {
    // success transport status, finish reason `length`, truncated but
    // well-formed fragment: classified soft, fragment preserved
    let fragment = "<html><body><p>partial</p></body></html>";
    let r = classify_chat_response(true, false, fragment, Some("length".to_string()));
    match r {
        ChatClassification::SoftFailure { content, finish_reason } => {
            assert_eq!(content, fragment);
            assert_eq!(finish_reason.as_deref(), Some("length"));
        }
        other => panic!("expected a soft failure, got {:?}", other),
    }
}

#[test]
fn wellformed_success_passes_through() {
    let body = "<html><body><p>ok</p></body></html>";
    let r = classify_chat_response(true, false, body, Some("stop".to_string()));
    match r {
        ChatClassification::Success { content, finish_reason } => {
            assert_eq!(content, body);
            assert_eq!(finish_reason.as_deref(), Some("stop"));
        }
        other => panic!("expected success, got {:?}", other),
    }
}

#[test]
fn meta_commentary_is_forced_soft() {
    let r = classify_chat_response(true, false, "Sure! Here is a summary of the article.", None);
    match r {
        ChatClassification::SoftFailure { finish_reason, .. } => {
            assert_eq!(finish_reason.as_deref(), Some("error"));
        }
        other => panic!("expected a forced soft failure, got {:?}", other),
    }
}

#[test]
fn fenced_document_is_extracted_before_classification() {
    let wrapped = "Here you go:\n```html\n<html><body>x</body></html>\n```\nDone.";
    let r = classify_chat_response(true, false, wrapped, None);
    match r {
        ChatClassification::Success { content, .. } => {
            assert_eq!(content, "<html><body>x</body></html>");
        }
        other => panic!("expected success, got {:?}", other),
    }
}

#[test]
fn empty_choices_is_hard_failure() {
    let r = classify_chat_response(true, true, "", None);
    assert!(matches!(r, ChatClassification::EmptyChoices));
}

#[test]
fn error_status_keeps_best_effort_payload() {
    let body = "<html><body>half</body></html>";
    let r = classify_chat_response(false, false, body, Some("stop".to_string()));
    match r {
        ChatClassification::SoftFailure { content, finish_reason } => {
            assert_eq!(content, body);
            assert_eq!(finish_reason.as_deref(), Some("stop"));
        }
        other => panic!("expected a soft failure, got {:?}", other),
    }
}

#[test]
fn non_png_payload_is_forced_soft_error() {
    // bytes other than the PNG signature despite a successful status
    let r = classify_image_bytes(vec![0xFF, 0xD8, 0xFF, 0xE0, 1, 2, 3, 4, 5]);
    match r {
        ImageClassification::SoftFailure { content, finish_reason } => {
            assert_eq!(content, "Image bytes are not a valid PNG");
            assert_eq!(finish_reason.as_deref(), Some("error"));
        }
        other => panic!("expected a forced soft failure, got {:?}", other),
    }
}

#[test]
fn png_payload_passes() {
    let bytes = png_bytes();
    match classify_image_bytes(bytes.clone()) {
        ImageClassification::Image { bytes: b } => assert_eq!(b, bytes),
        other => panic!("expected an image, got {:?}", other),
    }
}

#[test]
fn looks_like_png_checks_signature() {
    assert!(looks_like_png(&png_bytes()));
    assert!(!looks_like_png(&vec![0x89, 0x50]));
    assert!(!looks_like_png(&vec![1, 2, 3, 4, 5, 6, 7, 8]));
}

#[test]
fn gemini_inline_png_decodes() {
    let b64 = base64::engine::general_purpose::STANDARD.encode(png_bytes());
    let r = parse_gemini_image_from_generate_content_response(true, "", Some(b64.as_str()));
    match r {
        ImageClassification::Image { bytes } => assert_eq!(bytes, png_bytes()),
        other => panic!("expected an image, got {:?}", other),
    }
}

#[test]
fn gemini_non_png_inline_data_is_soft_error() {
    let b64 = base64::engine::general_purpose::STANDARD.encode([1u8, 2, 3, 4, 5, 6, 7, 8, 9]);
    let r = parse_gemini_image_from_generate_content_response(true, "", Some(b64.as_str()));
    match r {
        ImageClassification::SoftFailure { finish_reason, .. } => {
            assert_eq!(finish_reason.as_deref(), Some("error"));
        }
        other => panic!("expected a soft failure, got {:?}", other),
    }
}

#[test]
fn gemini_error_status_is_soft_with_body() {
    let r = parse_gemini_image_from_generate_content_response(false, "quota exceeded", None);
    match r {
        ImageClassification::SoftFailure { content, finish_reason } => {
            assert_eq!(content, "quota exceeded");
            assert_eq!(finish_reason.as_deref(), Some("error"));
        }
        other => panic!("expected a soft failure, got {:?}", other),
    }
}

#[test]
fn gemini_missing_payload_is_hard() {
    let r = parse_gemini_image_from_generate_content_response(true, "{}", None);
    assert!(matches!(r, ImageClassification::EmptyImageData));
}

#[test]
fn gemini_bad_base64_is_reported() {
    let r = parse_gemini_image_from_generate_content_response(true, "", Some("!!!not-base64!!!"));
    assert!(matches!(r, ImageClassification::BadBase64));
}

#[test]
fn openrouter_data_url_decodes_in_place() {
    let b64 = base64::engine::general_purpose::STANDARD.encode(png_bytes());
    let url = format!("data:image/png;base64,{}", b64);
    let r = parse_openrouter_image_from_chat_response(true, "", Some(url.as_str()));
    match r {
        OpenRouterImageStep::Classified(ImageClassification::Image { bytes }) => {
            assert_eq!(bytes, png_bytes());
        }
        other => panic!("expected a decoded image, got {:?}", other),
    }
}

#[test]
fn openrouter_http_url_is_handed_back() {
    let r = parse_openrouter_image_from_chat_response(
        true,
        "",
        Some("https://images.example/im.png"),
    );
    match r {
        OpenRouterImageStep::FetchUrl(u) => assert_eq!(u, "https://images.example/im.png"),
        other => panic!("expected a fetch step, got {:?}", other),
    }
}

#[test]
fn extract_base64_finds_standard_marker() {
    assert_eq!(
        extract_base64_from_data_url("data:image/png;base64,AAAA").as_deref(),
        Some("AAAA")
    );
    assert_eq!(
        extract_base64_from_data_url("DATA:IMAGE/PNG;BASE64,xyz").as_deref(),
        Some("xyz")
    );
    assert_eq!(
        extract_base64_from_data_url("data:image/jpeg,base64,Zm9v").as_deref(),
        Some("Zm9v")
    );
    assert!(extract_base64_from_data_url("https://example.com/x.png").is_none());
    assert!(extract_base64_from_data_url("data:image/png,plain").is_none());
}

#[test]
fn retry_after_is_read_from_diagnostic() {
    let msg = "Telegram API error: {\"ok\":false,\"error_code\":429,\"description\":\"Too Many Requests: retry after 5\",\"parameters\":{\"retry_after\":5}}";
    assert_eq!(extract_retry_after(msg), Some(5));
}

#[test]
fn retry_after_missing_field_is_none() {
    assert_eq!(extract_retry_after("some other error"), None);
    assert_eq!(extract_retry_after("retry_after but no colon or digits"), None);
}

#[test]
fn retry_after_overflow_is_none() {
    assert_eq!(extract_retry_after("retry_after: 99999999999999999999999"), None);
}

#[test]
fn truncate_for_log_cuts_and_counts() {
    assert_eq!(truncate_for_log("abcdef", 3), "abc... [truncated, total_len=6]");
    assert_eq!(truncate_for_log("abc", 3), "abc");
}

#[test]
fn truncate_for_log_counts_bytes_and_keeps_boundaries() {
    // two characters, four bytes: the limit and the reported total are
    // in bytes, and the cut falls on a character boundary
    assert_eq!(truncate_for_log("éé", 2), "é... [truncated, total_len=4]");
    assert_eq!(truncate_for_log("éé", 4), "éé");
}

#[test]
fn finish_reason_outcome_classification() {
    assert_eq!(outcome_for_finish_reason(&Some("error".to_string())), Outcome::SoftFailure);
    assert_eq!(outcome_for_finish_reason(&Some("length".to_string())), Outcome::SoftFailure);
    assert_eq!(outcome_for_finish_reason(&Some("stop".to_string())), Outcome::Success);
    assert_eq!(outcome_for_finish_reason(&None), Outcome::Success);
}
