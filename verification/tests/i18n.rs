use greentic_runner::i18n::{
    normalize_locale, resolve_message, resolve_text, select_locale_with_sources, I18nText,
};

#[test]
fn lib_resolve_message_uses_fallback_for_unknown_key() {
    let message = resolve_message("runner.unknown", "fallback message", "en");
    assert_eq!(message, "fallback message");
}

#[test]
fn lib_resolve_text_uses_key_and_fallback() {
    let text = I18nText::new("runner.operator.op_not_found", "fallback");
    let message = resolve_text(&text, "en");
    assert_eq!(message, "operation not found");
}

#[test]
fn normalize_locale_reduces_variants() {
    assert_eq!(normalize_locale("en-US"), "en");
    assert_eq!(normalize_locale("nl_NL"), "nl");
}

#[test]
fn lib_select_locale_prefers_explicit_over_env_and_system() {
    assert_eq!(
        select_locale_with_sources(None, Some("en-US"), Some("fr-FR"), Some("nl_NL.UTF-8")),
        "en"
    );
}

#[test]
fn lib_select_locale_prefers_cli_override() {
    assert_eq!(
        select_locale_with_sources(
            Some("it-IT"),
            Some("en-US"),
            Some("fr-FR"),
            Some("nl_NL.UTF-8")
        ),
        "it"
    );
}

#[test]
fn lib_select_locale_uses_env_over_system() {
    assert_eq!(
        select_locale_with_sources(None, None, Some("de-DE"), Some("nl_NL.UTF-8")),
        "de"
    );
}

#[test]
fn lib_select_locale_falls_back_to_system_then_en() {
    assert_eq!(
        select_locale_with_sources(None, None, None, Some("es_ES.UTF-8")),
        "es"
    );
    assert_eq!(select_locale_with_sources(None, None, None, None), "en");
}

#[test]
fn i18n_resolve_message_uses_fallback_for_unknown_key() {
    let message = resolve_message("runner.unknown", "fallback message", "en");
    assert_eq!(message, "fallback message");
}

#[test]
fn i18n_resolve_text_uses_key_and_fallback() {
    let text = I18nText::new("runner.operator.op_not_found", "fallback");
    let message = resolve_text(&text, "en");
    assert_eq!(message, "operation not found");
}

#[test]
fn i18n_select_locale_prefers_explicit_over_env_and_system() {
    assert_eq!(
        select_locale_with_sources(None, Some("en-US"), Some("fr-FR"), Some("nl_NL.UTF-8")),
        "en"
    );
}

#[test]
fn i18n_select_locale_prefers_cli_override() {
    assert_eq!(
        select_locale_with_sources(
            Some("it-IT"),
            Some("en-US"),
            Some("fr-FR"),
            Some("nl_NL.UTF-8")
        ),
        "it"
    );
}

#[test]
fn i18n_select_locale_uses_env_over_system() {
    assert_eq!(
        select_locale_with_sources(None, None, Some("de-DE"), Some("nl_NL.UTF-8")),
        "de"
    );
}

#[test]
fn i18n_select_locale_falls_back_to_system_then_en() {
    assert_eq!(
        select_locale_with_sources(None, None, None, Some("es_ES.UTF-8")),
        "es"
    );
    assert_eq!(select_locale_with_sources(None, None, None, None), "en");
}

#[test]
fn normalize_locale_is_idempotent_on_samples() {
    for sample in ["en-US", "nl_NL.UTF-8", "DE", "", "fr-FR-x-extra"] {
        let once = normalize_locale(sample);
        assert_eq!(normalize_locale(&once), once);
    }
}

#[test]
fn redis_resume_survives_restart_disabled() {
    println!("session-redis feature disabled; skipping redis resume test");
}
