use lilaccaps::config::TranslateConfig;
use lilaccaps::translate::{
    default_output_path, model_name, reorder_labeled_lines, resolve_targets, review_report_for,
    validate_config,
};

#[test]
fn cli_targets_override_config_targets() {
    let targets = resolve_targets(&["ja".to_string()], vec!["en".to_string()])
        .expect("targets should resolve");
    assert_eq!(targets, vec!["en"]);
}

#[test]
fn blank_targets_are_rejected() {
    let error = resolve_targets(&[" ".to_string()], Vec::new()).unwrap_err();
    assert!(error.starts_with("no translation targets configured"));
    assert_eq!(
        resolve_targets(&[" ja ".to_string(), "".to_string()], Vec::new()).unwrap(),
        vec!["ja"]
    );
}

#[test]
fn append_output_path_uses_multilang_suffix() {
    let path = default_output_path("/tmp/input.srt", true);
    assert_eq!(path, "/tmp/input.multilang.srt");
    assert_eq!(default_output_path("/tmp/input.srt", false), "/tmp/input.translated.srt");
    assert_eq!(review_report_for("/tmp/out.srt").unwrap(), "/tmp/out.srt.review.json");
}

#[test]
fn line_order_reorders_source_and_targets() {
    let lines = reorder_labeled_lines(
        &["ja".to_string(), "source".to_string(), "en".to_string()],
        vec![
            ("source".to_string(), "原文".to_string()),
            ("en".to_string(), "English".to_string()),
            ("ja".to_string(), "日本語".to_string()),
        ],
    );
    assert_eq!(lines, vec!["日本語", "原文", "English"]);
}

#[test]
fn unordered_roles_keep_their_place_after_ordered_ones() {
    let lines = reorder_labeled_lines(
        &["en".to_string(), "fr".to_string()],
        vec![
            ("source".to_string(), "a".to_string()),
            ("en".to_string(), "b".to_string()),
        ],
    );
    assert_eq!(lines, vec!["b", "a"]);
}

// The default translation model, `gemini-3.1-flash-lite`, is not one of the Codex
// models that `validate_config` accepts, so a default `TranslateConfig` does not
// validate as it stands; this test therefore sets a Codex model before checking.
#[test]
fn codex_model_and_effort_validation() {
    let mut config = TranslateConfig::default();
    config.model = "openai/gpt-5.6-luna".into();
    assert_eq!(model_name(&config.model), "gpt-5.6-luna");
    assert!(validate_config(&config).is_ok());
    config.reasoning_effort = "ultra".into();
    assert_eq!(
        validate_config(&config).unwrap_err(),
        "translate.reasoning_effort must be low, medium, high, xhigh, or max"
    );
    config.reasoning_effort = "medium".into();
    config.model = "gemini-3.1-flash-lite".into();
    assert_eq!(validate_config(&config).unwrap_err(), "invalid Codex model in translate.model");
    config.model = "gpt-5.6-terra".into();
    config.command = "bin/codex".into();
    assert!(validate_config(&config).is_err());
}
