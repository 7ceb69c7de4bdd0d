//! Provider selection and the normalization of reasoning-effort hints to
//! each backend's own vocabulary.

use vstd::prelude::*;
use crate::chars::{chars_of, eq_ci, eq_ci_of, str_eq, trim, trim_of};
use crate::gateway::opt_view;
use vstd::string::StringExecFns;

verus! {

/// The text- and image-generation backends the pipeline can talk to.
#[derive(Debug, Clone, Copy, PartialEq, Eq, Structural)]
pub enum AiProviderType {
    OpenRouter,
    Perplexity,
    Gemini,
}

/// The reasoning hint attached to a request: whether reasoning is enabled,
/// and the normalized effort level, one of `xhigh`, `high`, `medium`,
/// `low`, `minimal` or `none`.
#[derive(Debug, Clone)]
pub struct ReasoningConfig {
    pub enabled: Option<bool>,
    pub effort: Option<String>,
}

/// The provider a configuration value names, after trimming, without
/// regard to ASCII case.
pub open spec fn spec_parse_provider(v: Seq<char>) -> Option<AiProviderType> {
    let t = trim_of(v);
    if eq_ci(t, "openrouter"@) {
        Some(AiProviderType::OpenRouter)
    } else if eq_ci(t, "perplexity"@) {
        Some(AiProviderType::Perplexity)
    } else if eq_ci(t, "gemini"@) {
        Some(AiProviderType::Gemini)
    } else {
        None
    }
}

impl AiProviderType {
    /// Parses a provider name for text generation. `None` exactly when the
    /// trimmed value names none of the known backends.
    pub fn parse(value: &str) -> (r: Option<AiProviderType>)
        ensures
            r == spec_parse_provider(value@),
    {
        let v = chars_of(value);
        let t = trim(&v);
        if eq_ci_of(&t, &chars_of("openrouter")) {
            Some(AiProviderType::OpenRouter)
        } else if eq_ci_of(&t, &chars_of("perplexity")) {
            Some(AiProviderType::Perplexity)
        } else if eq_ci_of(&t, &chars_of("gemini")) {
            Some(AiProviderType::Gemini)
        } else {
            None
        }
    }

    /// Parses a provider name for image generation, where only backends
    /// with an image modality are accepted.
    pub fn parse_for_images(value: &str) -> (r: Option<AiProviderType>)
        ensures
            r == (match spec_parse_provider(value@) {
                Some(AiProviderType::Perplexity) => None::<AiProviderType>,
                other => other,
            }),
    {
        match Self::parse(value) {
            Some(AiProviderType::Perplexity) => None,
            other => other,
        }
    }
}

/// The boolean a configuration value stands for: the usual switch words,
/// without regard to ASCII case; nothing for an empty or dash value or any
/// other word.
pub open spec fn spec_parse_optional_bool(v: Seq<char>) -> Option<bool> {
    let t = trim_of(v);
    if t.len() == 0 || t == "-"@ {
        None
    } else if eq_ci(t, "1"@) || eq_ci(t, "true"@) || eq_ci(t, "yes"@) || eq_ci(t, "y"@) || eq_ci(
        t,
        "on"@,
    ) {
        Some(true)
    } else if eq_ci(t, "0"@) || eq_ci(t, "false"@) || eq_ci(t, "no"@) || eq_ci(t, "n"@) || eq_ci(
        t,
        "off"@,
    ) {
        Some(false)
    } else {
        None
    }
}

/// Parses an optional boolean configuration value.
pub fn parse_optional_bool_env(value: &str) -> (r: Option<bool>)
    ensures
        r == spec_parse_optional_bool(value@),
{
    let v = chars_of(value);
    let t = trim(&v);
    let isdash = t.len() == 1 && t[0] == '-';
    proof {
        reveal_strlit("-");
        if isdash {
            assert(t@ =~= "-"@);
        }
        if t@ == "-"@ {
            assert(t@.len() == 1 && t@[0] == '-');
        }
    }
    if t.len() == 0 || isdash {
        return None;
    }
    if eq_ci_of(&t, &chars_of("1")) || eq_ci_of(&t, &chars_of("true")) || eq_ci_of(
        &t,
        &chars_of("yes"),
    ) || eq_ci_of(&t, &chars_of("y")) || eq_ci_of(&t, &chars_of("on")) {
        Some(true)
    } else if eq_ci_of(&t, &chars_of("0")) || eq_ci_of(&t, &chars_of("false")) || eq_ci_of(
        &t,
        &chars_of("no"),
    ) || eq_ci_of(&t, &chars_of("n")) || eq_ci_of(&t, &chars_of("off")) {
        Some(false)
    } else {
        None
    }
}

/// The normalized effort level a configuration value stands for: one of
/// the six allowed words, lowered; nothing for an empty or dash value or
/// any other word.
pub open spec fn spec_parse_optional_effort(v: Seq<char>) -> Option<Seq<char>> {
    let t = trim_of(v);
    if t.len() == 0 || t == "-"@ {
        None
    } else if eq_ci(t, "xhigh"@) {
        Some("xhigh"@)
    } else if eq_ci(t, "high"@) {
        Some("high"@)
    } else if eq_ci(t, "medium"@) {
        Some("medium"@)
    } else if eq_ci(t, "low"@) {
        Some("low"@)
    } else if eq_ci(t, "minimal"@) {
        Some("minimal"@)
    } else if eq_ci(t, "none"@) {
        Some("none"@)
    } else {
        None
    }
}

/// Parses an optional reasoning-effort configuration value, normalizing it
/// to lower case.
pub fn parse_optional_effort_env(value: &str) -> (r: Option<String>)
    ensures
        opt_view(r) == spec_parse_optional_effort(value@),
{
    let v = chars_of(value);
    let t = trim(&v);
    let isdash = t.len() == 1 && t[0] == '-';
    proof {
        reveal_strlit("-");
        if isdash {
            assert(t@ =~= "-"@);
        }
        if t@ == "-"@ {
            assert(t@.len() == 1 && t@[0] == '-');
        }
    }
    if t.len() == 0 || isdash {
        return None;
    }
    if eq_ci_of(&t, &chars_of("xhigh")) {
        Some(String::from_str("xhigh"))
    } else if eq_ci_of(&t, &chars_of("high")) {
        Some(String::from_str("high"))
    } else if eq_ci_of(&t, &chars_of("medium")) {
        Some(String::from_str("medium"))
    } else if eq_ci_of(&t, &chars_of("low")) {
        Some(String::from_str("low"))
    } else if eq_ci_of(&t, &chars_of("minimal")) {
        Some(String::from_str("minimal"))
    } else if eq_ci_of(&t, &chars_of("none")) {
        Some(String::from_str("none"))
    } else {
        None
    }
}

/// The reasoning configuration that a pair of raw configuration values
/// yields: when only the effort is given, the enabled switch follows from
/// it (`none` disables); when neither parses, there is no configuration.
pub open spec fn spec_reasoning_from_values(
    enabled_raw: Option<Seq<char>>,
    effort_raw: Option<Seq<char>>,
) -> Option<(Option<bool>, Option<Seq<char>>)> {
    let enabled0 = match enabled_raw {
        Some(v) => spec_parse_optional_bool(v),
        None => None,
    };
    let effort = match effort_raw {
        Some(v) => spec_parse_optional_effort(v),
        None => None,
    };
    let enabled = if enabled0 is None {
        match effort {
            Some(e) => if e == "none"@ {
                Some(false)
            } else {
                Some(true)
            },
            None => None,
        }
    } else {
        enabled0
    };
    if enabled is None && effort is None {
        None
    } else {
        Some((enabled, effort))
    }
}

/// Combines the two raw reasoning configuration values into one
/// configuration, or none when neither is usable.
pub fn reasoning_from_values(enabled_raw: Option<String>, effort_raw: Option<String>) -> (r:
    Option<ReasoningConfig>)
    ensures
        ({
            let er = match enabled_raw {
                Some(v) => Some(v@),
                None => None::<Seq<char>>,
            };
            let fr = match effort_raw {
                Some(v) => Some(v@),
                None => None::<Seq<char>>,
            };
            match r {
                Some(rc) => spec_reasoning_from_values(er, fr) == Some(
                    (rc.enabled, opt_view(rc.effort)),
                ),
                None => spec_reasoning_from_values(er, fr) is None,
            }
        }),
{
    let mut enabled: Option<bool> = match &enabled_raw {
        Some(v) => parse_optional_bool_env(v.as_str()),
        None => None,
    };
    let effort: Option<String> = match &effort_raw {
        Some(v) => parse_optional_effort_env(v.as_str()),
        None => None,
    };
    if enabled.is_none() {
        if let Some(e) = &effort {
            if str_eq(e.as_str(), "none") {
                enabled = Some(false);
            } else {
                enabled = Some(true);
            }
        }
    }
    if enabled.is_none() && effort.is_none() {
        return None;
    }
    Some(ReasoningConfig { enabled, effort })
}

/// The effort word passed to the Gemini backend for a reasoning
/// configuration: `xhigh` and `high` collapse to `high`; `medium`, `low`
/// and `minimal` pass through; `none`, a disabled switch, or any
/// unsupported word sends nothing.
pub open spec fn spec_gemini_effort(
    enabled: Option<bool>,
    effort: Option<Seq<char>>,
) -> Option<Seq<char>> {
    if enabled == Some(false) {
        None
    } else {
        match effort {
            None => None,
            Some(e) => if e == "xhigh"@ || e == "high"@ {
                Some("high"@)
            } else if e == "medium"@ {
                Some("medium"@)
            } else if e == "low"@ {
                Some("low"@)
            } else if e == "minimal"@ {
                Some("minimal"@)
            } else {
                None
            },
        }
    }
}

/// Maps a reasoning configuration to the Gemini effort vocabulary.
pub fn gemini_reasoning_effort_from_reasoning(reasoning: &Option<ReasoningConfig>) -> (r: Option<
    String,
>)
    ensures
        ({
            let spec_r = match reasoning {
                None => None::<Seq<char>>,
                Some(rc) => spec_gemini_effort(rc.enabled, opt_view(rc.effort)),
            };
            opt_view(r) == spec_r
        }),
{
    let rc = match reasoning {
        Some(rc) => rc,
        None => {
            return None;
        },
    };
    if let Some(en) = rc.enabled {
        if !en {
            return None;
        }
    }
    let e = match &rc.effort {
        Some(e) => e,
        None => {
            return None;
        },
    };
    if str_eq(e.as_str(), "xhigh") || str_eq(e.as_str(), "high") {
        Some(String::from_str("high"))
    } else if str_eq(e.as_str(), "medium") {
        Some(String::from_str("medium"))
    } else if str_eq(e.as_str(), "low") {
        Some(String::from_str("low"))
    } else if str_eq(e.as_str(), "minimal") {
        Some(String::from_str("minimal"))
    } else {
        None
    }
}

/// The effort word passed to the Perplexity backend: `xhigh` and `high`
/// collapse to `high`; `low` and `minimal` collapse to `low`; `medium`
/// passes through; `none`, a disabled switch, or any unsupported word
/// sends nothing.
pub open spec fn spec_perplexity_effort(
    enabled: Option<bool>,
    effort: Option<Seq<char>>,
) -> Option<Seq<char>> {
    if enabled == Some(false) {
        None
    } else {
        match effort {
            None => None,
            Some(e) => if e == "xhigh"@ || e == "high"@ {
                Some("high"@)
            } else if e == "medium"@ {
                Some("medium"@)
            } else if e == "low"@ || e == "minimal"@ {
                Some("low"@)
            } else {
                None
            },
        }
    }
}

/// Maps a reasoning configuration to the Perplexity effort vocabulary.
pub fn perplexity_reasoning_effort_from_reasoning(reasoning: &Option<ReasoningConfig>) -> (r:
    Option<String>)
    ensures
        ({
            let spec_r = match reasoning {
                None => None::<Seq<char>>,
                Some(rc) => spec_perplexity_effort(rc.enabled, opt_view(rc.effort)),
            };
            opt_view(r) == spec_r
        }),
{
    let rc = match reasoning {
        Some(rc) => rc,
        None => {
            return None;
        },
    };
    if let Some(en) = rc.enabled {
        if !en {
            return None;
        }
    }
    let e = match &rc.effort {
        Some(e) => e,
        None => {
            return None;
        },
    };
    if str_eq(e.as_str(), "xhigh") || str_eq(e.as_str(), "high") {
        Some(String::from_str("high"))
    } else if str_eq(e.as_str(), "medium") {
        Some(String::from_str("medium"))
    } else if str_eq(e.as_str(), "low") || str_eq(e.as_str(), "minimal") {
        Some(String::from_str("low"))
    } else {
        None
    }
}

} // verus!
