use newspipe::provider::{
    gemini_reasoning_effort_from_reasoning, parse_optional_bool_env, parse_optional_effort_env,
    perplexity_reasoning_effort_from_reasoning, reasoning_from_values, AiProviderType,
    ReasoningConfig,
};

#[test]
fn provider_names_parse_case_insensitively() {
    assert_eq!(AiProviderType::parse(" OpenRouter "), Some(AiProviderType::OpenRouter));
    assert_eq!(AiProviderType::parse("PERPLEXITY"), Some(AiProviderType::Perplexity));
    assert_eq!(AiProviderType::parse("gemini"), Some(AiProviderType::Gemini));
    assert_eq!(AiProviderType::parse("acme"), None);
    assert_eq!(AiProviderType::parse(""), None);
}

#[test]
fn image_providers_exclude_text_only_backends() {
    assert_eq!(AiProviderType::parse_for_images("openrouter"), Some(AiProviderType::OpenRouter));
    assert_eq!(AiProviderType::parse_for_images("gemini"), Some(AiProviderType::Gemini));
    assert_eq!(AiProviderType::parse_for_images("perplexity"), None);
}

#[test]
fn bool_values_parse_with_switch_words() {
    assert_eq!(parse_optional_bool_env("1"), Some(true));
    assert_eq!(parse_optional_bool_env("Yes"), Some(true));
    assert_eq!(parse_optional_bool_env(" on "), Some(true));
    assert_eq!(parse_optional_bool_env("0"), Some(false));
    assert_eq!(parse_optional_bool_env("OFF"), Some(false));
    assert_eq!(parse_optional_bool_env(""), None);
    assert_eq!(parse_optional_bool_env("-"), None);
    assert_eq!(parse_optional_bool_env("maybe"), None);
}

#[test]
fn effort_values_normalize_to_lower_case() {
    assert_eq!(parse_optional_effort_env("XHigh").as_deref(), Some("xhigh"));
    assert_eq!(parse_optional_effort_env(" medium ").as_deref(), Some("medium"));
    assert_eq!(parse_optional_effort_env("NONE").as_deref(), Some("none"));
    assert_eq!(parse_optional_effort_env("-"), None);
    assert_eq!(parse_optional_effort_env("ultra"), None);
}

#[test]
fn reasoning_enabled_follows_effort() {
    let r = reasoning_from_values(None, Some("high".to_string())).unwrap();
    assert_eq!(r.enabled, Some(true));
    assert_eq!(r.effort.as_deref(), Some("high"));

    let r = reasoning_from_values(None, Some("none".to_string())).unwrap();
    assert_eq!(r.enabled, Some(false));
    assert_eq!(r.effort.as_deref(), Some("none"));

    assert!(reasoning_from_values(None, None).is_none());
    assert!(reasoning_from_values(Some("junk".to_string()), Some("-".to_string())).is_none());
}

fn cfg(enabled: Option<bool>, effort: Option<&str>) -> Option<ReasoningConfig> {
    Some(ReasoningConfig { enabled, effort: effort.map(|e| e.to_string()) })
}

#[test]
fn gemini_effort_vocabulary() {
    assert_eq!(
        gemini_reasoning_effort_from_reasoning(&cfg(Some(true), Some("xhigh"))).as_deref(),
        Some("high")
    );
    assert_eq!(
        gemini_reasoning_effort_from_reasoning(&cfg(None, Some("minimal"))).as_deref(),
        Some("minimal")
    );
    assert_eq!(gemini_reasoning_effort_from_reasoning(&cfg(None, Some("none"))), None);
    assert_eq!(gemini_reasoning_effort_from_reasoning(&cfg(Some(false), Some("high"))), None);
    assert_eq!(gemini_reasoning_effort_from_reasoning(&cfg(None, Some("bogus"))), None);
    assert_eq!(gemini_reasoning_effort_from_reasoning(&None), None);
}

#[test]
fn perplexity_effort_vocabulary() {
    assert_eq!(
        perplexity_reasoning_effort_from_reasoning(&cfg(None, Some("xhigh"))).as_deref(),
        Some("high")
    );
    assert_eq!(
        perplexity_reasoning_effort_from_reasoning(&cfg(None, Some("minimal"))).as_deref(),
        Some("low")
    );
    assert_eq!(
        perplexity_reasoning_effort_from_reasoning(&cfg(None, Some("medium"))).as_deref(),
        Some("medium")
    );
    assert_eq!(perplexity_reasoning_effort_from_reasoning(&cfg(None, Some("none"))), None);
    assert_eq!(perplexity_reasoning_effort_from_reasoning(&cfg(Some(false), Some("low"))), None);
}
