use agoralume::api_error::ApiError;
use agoralume::config::{parse_csv, parse_flag, parse_open};
use agoralume::llm_settings::{
    check_outbound_scheme, model_listing_target, non_empty, resolve_api_key, LegacyLlmVars, LlmSettings, LlmSettingsPatch,
    LlmSettingsView,
};
use agoralume::sim::{plan_turn, MOOD_DELAY_MS};
use agoralume::text::parse_u64;
use agoralume::models::LlmModelsQuery;
use agoralume::sim::placeholder_reply;

#[test]
fn parse_csv_trims_and_drops_blanks() {
    let got = parse_csv(" http://localhost:5173 ,, https://chat.example.com ,");
    assert_eq!(got, vec!["http://localhost:5173", "https://chat.example.com"]);
}

#[test]
fn parse_csv_all_blank_is_empty() {
    assert!(parse_csv(" , , ").is_empty());
    assert!(parse_csv("").is_empty());
}

#[test]
fn flags_read_on_and_off_words() {
    assert!(parse_flag(" YES "));
    assert!(parse_flag("1"));
    assert!(!parse_flag("nope"));
    assert!(parse_open("whatever"));
    assert!(!parse_open(" Off"));
}

#[test]
fn explicit_api_key_wins_regardless_of_stored_base_url() {
    let key = resolve_api_key(
        Some("fresh-key".to_string()),
        "https://attacker.example/v1",
        Some("https://api.openai.com/v1"),
        Some("stored-key".to_string()),
    )
    .expect("an explicit key is always accepted");
    assert_eq!(key, "fresh-key");
}

#[test]
fn omitted_api_key_falls_back_to_stored_only_for_the_matching_base_url() {
    let key = resolve_api_key(None, "https://api.openai.com/v1", Some("https://api.openai.com/v1"), Some("stored-key".to_string()))
        .expect("baseUrl matches the stored one");
    assert_eq!(key, "stored-key");
    let key = resolve_api_key(None, "HTTPS://API.OPENAI.COM/v1/", Some("https://api.openai.com/v1"), Some("stored-key".to_string()))
        .expect("normalization tolerates slash/case differences");
    assert_eq!(key, "stored-key");
}

#[test]
fn omitted_api_key_is_rejected_for_a_different_base_url() {
    let err = resolve_api_key(None, "https://attacker.example/v1", Some("https://api.openai.com/v1"), Some("stored-key".to_string()))
        .expect_err("a different baseUrl must not receive the stored key");
    assert!(err.contains("apiKey is required"));
}

#[test]
fn omitted_api_key_is_rejected_when_nothing_is_stored_yet() {
    let err = resolve_api_key(None, "https://api.openai.com/v1", None, None).expect_err("no stored baseUrl to match against");
    assert!(err.contains("apiKey is required"));
}

#[test]
fn only_http_urls_may_be_dialled() {
    assert!(check_outbound_scheme("HTTPS://api.openai.com").is_ok());
    assert!(check_outbound_scheme("http://localhost:11434/v1").is_ok());
    assert_eq!(check_outbound_scheme("file:///etc/passwd").unwrap_err(), "baseUrl must be an http:// or https:// URL");
}

#[test]
fn a_model_listing_needs_a_url_and_a_key_it_may_use() {
    let stored = LlmSettings { base_url: Some("https://api.openai.com/v1".into()), api_key: Some("k".into()), ..LlmSettings::default() };
    let q = |url: &str, key: Option<&str>| LlmModelsQuery { base_url: url.into(), api_key: key.map(str::to_string) };
    assert_eq!(model_listing_target(&q("  ", None), &stored).unwrap_err(), "baseUrl is required");
    assert!(model_listing_target(&q("ftp://x", Some("k")), &stored).is_err());
    assert_eq!(
        model_listing_target(&q(" https://api.openai.com/v1/ ", None), &stored).unwrap(),
        ("https://api.openai.com/v1/".to_string(), "k".to_string())
    );
    assert!(model_listing_target(&q("https://other.example", None), &stored).is_err());
}

fn patch() -> LlmSettingsPatch {
    LlmSettingsPatch {
        enabled: None,
        base_url: None,
        model: None,
        api_key: None,
        max_tokens: None,
        max_rpm: None,
        max_retries: None,
        retry_base_ms: None,
        compress_after: None,
        compress_keep: None,
        compress_max_tokens: None,
    }
}

#[test]
fn an_absent_field_leaves_the_stored_value_untouched() {
    let mut base = LlmSettings { api_key: Some("sk-existing".to_string()), ..LlmSettings::default() };
    patch().apply(&mut base);
    assert_eq!(base.api_key.as_deref(), Some("sk-existing"));
}

#[test]
fn an_empty_string_clears_the_field() {
    let mut base = LlmSettings { api_key: Some("sk-existing".to_string()), ..LlmSettings::default() };
    LlmSettingsPatch { api_key: Some(String::new()), ..patch() }.apply(&mut base);
    assert_eq!(base.api_key, None);
}

#[test]
fn a_non_empty_string_replaces_the_field() {
    let mut base = LlmSettings::default();
    LlmSettingsPatch { model: Some("gpt-4o-mini".to_string()), ..patch() }.apply(&mut base);
    assert_eq!(base.model.as_deref(), Some("gpt-4o-mini"));
}

#[test]
fn defaults_are_the_mock_with_conservative_limits() {
    let d = LlmSettings::default();
    assert!(!d.enabled);
    assert_eq!((d.max_tokens, d.max_rpm, d.max_retries, d.retry_base_ms), (512, 15, 2, 1000));
    assert_eq!((d.compress_after, d.compress_keep, d.compress_max_tokens), (50, 20, 1024));
    assert!(matches!(d.brain_config(), Ok(None)));
    let half = LlmSettings { enabled: true, base_url: Some("http://x".into()), ..LlmSettings::default() };
    assert_eq!(half.brain_config().unwrap_err(), "enabled is true but base_url and model are not both set");
}

#[test]
fn the_view_never_carries_the_key() {
    let s = LlmSettings { api_key: Some("sk".into()), ..LlmSettings::default() };
    assert!(LlmSettingsView::from_settings(&s).has_api_key);
    let s = LlmSettings { api_key: Some(String::new()), ..LlmSettings::default() };
    assert!(!LlmSettingsView::from_settings(&s).has_api_key);
    assert_eq!(non_empty("  x ".into()).as_deref(), Some("x"));
}

#[test]
fn type_is_a_stable_urn_and_title_matches_the_status() {
    let error = ApiError::forbidden("not-admin", "this route requires the admin role".to_string());
    assert_eq!(error.kind, "urn:agoralume:error:not-admin");
    assert_eq!(error.title, "Forbidden");
    assert_eq!(error.status, 403);
}

#[test]
fn each_error_constructor_has_its_status_and_extras() {
    let e = ApiError::unauthorized("invalid-token", "expired".into(), "Bearer");
    assert_eq!((e.status, e.title.as_str(), e.challenge), (401, "Unauthorized", Some("Bearer")));
    let e = ApiError::too_many_requests("slow-down", "wait".into(), 7);
    assert_eq!((e.status, e.retry_after_secs), (429, Some(7)));
    assert_eq!(ApiError::not_found("x".into()).kind, "urn:agoralume:error:not-found");
    assert_eq!(ApiError::unprocessable("x".into()).title, "Unprocessable Entity");
    assert_eq!(ApiError::conflict("taken", "x".into()).title, "Conflict");
}

#[test]
fn the_placeholder_reply_echoes_the_trimmed_text() {
    assert_eq!(placeholder_reply("  hi "), "You said \u{201c}hi\u{201d}. (Placeholder reply \u{2014} connect an LLM to make it real.)");
    assert_eq!(placeholder_reply("   "), "Hmm?");
}

#[test]
fn disabled_settings_build_the_mock() {
    let settings = LlmSettings::default();
    let config = settings.brain_config().expect("mock always builds");
    assert!(config.is_none(), "no brain configuration means the mock");
}

#[test]
fn enabled_without_base_url_fails_validation_instead_of_panicking() {
    let settings = LlmSettings { enabled: true, model: Some("llama3.1".into()), ..LlmSettings::default() };
    assert!(settings.brain_config().is_err());
}

#[test]
fn enabled_with_endpoint_builds_a_real_brain() {
    let settings = LlmSettings {
        enabled: true,
        base_url: Some("http://localhost:11434/v1".to_string()),
        model: Some("llama3.1".to_string()),
        ..LlmSettings::default()
    };
    let config = settings.brain_config().expect("a valid endpoint builds").expect("not the mock");
    assert_eq!((config.base_url, config.model, config.api_key), ("http://localhost:11434/v1", "llama3.1", ""));
    assert_eq!(config.summary_max_tokens, 1024);
}

fn no_vars() -> LegacyLlmVars {
    LegacyLlmVars {
        llm: None,
        base_url: None,
        model: None,
        api_key: None,
        max_tokens: None,
        max_rpm: None,
        max_retries: None,
        retry_base_ms: None,
        compress_after: None,
        compress_keep: None,
        compress_max_tokens: None,
    }
}

#[test]
fn nothing_set_means_nothing_to_migrate() {
    assert!(no_vars().migrate().is_none());
    assert!(LegacyLlmVars { llm: Some("off".into()), base_url: Some("   ".into()), ..no_vars() }.migrate().is_none());
}

#[test]
fn legacy_variables_are_laid_over_the_defaults() {
    let s = LegacyLlmVars {
        llm: Some(" TRUE ".into()),
        base_url: Some(" http://localhost:11434/v1 ".into()),
        model: Some("llama3.1".into()),
        max_tokens: Some("2048".into()),
        max_rpm: Some("abc".into()),
        max_retries: Some("4294967296".into()),
        compress_keep: Some("+7".into()),
        ..no_vars()
    }
    .migrate()
    .expect("something was set");
    assert!(s.enabled);
    assert_eq!(s.base_url.as_deref(), Some("http://localhost:11434/v1"));
    assert_eq!(s.model.as_deref(), Some("llama3.1"));
    assert_eq!(s.api_key, None);
    assert_eq!(s.max_tokens, 2048);
    assert_eq!(s.max_rpm, 15, "unparsable keeps the default");
    assert_eq!(s.max_retries, 2, "out of range keeps the default");
    assert_eq!(s.compress_keep, 7);
    assert_eq!(s.compress_after, 50);
}

#[test]
fn unsigned_numbers_parse_as_std_does() {
    assert_eq!(parse_u64("0"), Some(0));
    assert_eq!(parse_u64("+42"), Some(42));
    assert_eq!(parse_u64("18446744073709551615"), Some(u64::MAX));
    assert_eq!(parse_u64("18446744073709551616"), None);
    for bad in ["", "+", "-1", " 1", "1.5", "12a"] {
        assert_eq!(parse_u64(bad), None, "{bad:?}");
        assert_eq!(parse_u64(bad), bad.parse::<u64>().ok(), "{bad:?}");
    }
}

#[test]
fn a_simulated_turn_has_one_replier_and_staggered_readers() {
    let readers = vec!["aria".to_string(), "nox".to_string(), "sol".to_string()];
    let plan = plan_turn(&readers, 1, 2, " hello ");
    assert_eq!(plan.len(), 3);
    assert_eq!((plan[0].delay_ms, plan[0].reply.is_none()), (400, true));
    assert_eq!(plan[1].delay_ms, MOOD_DELAY_MS);
    let (mood, text) = plan[1].reply.clone().expect("the picked member replies");
    assert_eq!(mood, "✨ inspired");
    assert_eq!(text, placeholder_reply("hello"));
    assert_eq!((plan[2].delay_ms, plan[2].reply.is_none()), (720, true));
}
