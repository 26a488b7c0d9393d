use std::path::Path;

use lilaccaps::config::{
    default_config, default_config_path, default_runtime_home, expand_home,
    migrate_managed_defaults, validate_transcribe_config, Config, TranscribeEngine,
    TranscribeSegmentationMode,
};

fn fresh_config() -> Config {
    default_config("/tmp/skills/lilaccaps/SKILL.md".to_string())
        .expect("default config should build")
}

#[test]
fn expands_tilde_paths() {
    let expanded = expand_home("~/demo").expect("tilde path should expand");
    assert!(Path::new(&expanded).ends_with("demo"));
    assert!(Path::new(&expanded).is_absolute());
}

#[test]
fn default_config_lives_under_runtime_home() {
    let runtime_home = default_runtime_home().expect("runtime home should resolve");
    let config_path = default_config_path().expect("config path should resolve");
    assert_eq!(
        Path::new(&config_path),
        Path::new(&runtime_home).join("lilaccaps.toml")
    );
}

#[test]
fn default_config_uses_auto_language_detection() {
    let config = fresh_config();
    assert_eq!(config.transcribe.language, "auto");
    assert_eq!(config.transcribe.engine, TranscribeEngine::WhisperRs);
    assert_eq!(config.transcribe.segmentation.chunk_seconds, 30);
    assert_eq!(config.transcribe.segmentation.overlap_seconds, 2);
    assert_eq!(
        config.transcribe.segmentation.mode,
        TranscribeSegmentationMode::Speech
    );
    assert_eq!(config.transcribe.segmentation.min_speech_ms, 400);
    assert_eq!(config.transcribe.segmentation.min_silence_ms, 350);
    assert_eq!(config.transcribe.segmentation.padding_ms, 300);
    assert_eq!(config.transcribe.segmentation.max_window_seconds, 30);
    assert_eq!(config.transcribe.cues.min_duration_ms, 800);
    assert_eq!(config.transcribe.cues.max_duration_ms, 6_000);
    assert_eq!(config.transcribe.cues.end_padding_ms, 150);
    assert_eq!(config.transcribe.cues.pause_split_ms, 500);
    assert!(!config.transcribe.cleanup.enabled);
    assert_eq!(config.transcribe.cleanup.command, "codex");
    assert_eq!(config.transcribe.cleanup.model, "gpt-5.6-terra");
    assert_eq!(config.burnin.font, "auto");
    assert_eq!(config.burnin.colour, "auto");
    assert_eq!(config.burnin.size, 0);
    assert_eq!(config.burnin.line_spacing, 0);
    assert!(config.burnin.advanced_styling);
    assert!(config.burnin.outline.enabled);
    assert_eq!(config.burnin.outline.colour, "black");
    assert_eq!(config.burnin.outline.width, 2);
    assert!(config.burnin.styles.is_empty());
    assert_eq!(config.translate.model, "gemini-3.1-flash-lite");
    assert!(config.translate.append);
    assert!(config.translate.default_targets.is_empty());
    assert!(config.translate.line_order.is_empty());
    assert_eq!(
        config.release.github_repo.as_deref(),
        Some("zhuisDEV/lilaccaps")
    );
}

#[test]
fn migrates_legacy_managed_defaults() {
    let mut config = fresh_config();
    config.translate.model = "gemini-3.1-flash-lite-preview".to_string();
    config.release.github_repo = None;

    assert!(migrate_managed_defaults(&mut config));
    assert_eq!(config.translate.model, "gemini-3.1-flash-lite");
    assert_eq!(
        config.release.github_repo.as_deref(),
        Some("zhuisDEV/lilaccaps")
    );
    assert!(!migrate_managed_defaults(&mut config));
}

#[test]
fn rejects_overlap_that_consumes_the_entire_chunk() {
    let mut config = fresh_config();
    config.transcribe.segmentation.overlap_seconds = 30;

    let error = validate_transcribe_config(&config.transcribe)
        .expect_err("invalid overlap should be rejected");
    assert!(error.to_string().contains("overlap_seconds"));
}

#[test]
fn rejects_inverted_cue_duration_limits() {
    let mut config = fresh_config();
    config.transcribe.cues.min_duration_ms = 2_000;
    config.transcribe.cues.max_duration_ms = 1_000;

    let error = validate_transcribe_config(&config.transcribe)
        .expect_err("inverted cue durations should be rejected");
    assert!(error.to_string().contains("max_duration_ms"));
}

#[test]
fn rejects_zero_pause_split_threshold() {
    let mut config = fresh_config();
    config.transcribe.cues.pause_split_ms = 0;

    let error = validate_transcribe_config(&config.transcribe)
        .expect_err("zero pause threshold should be rejected");
    assert!(error.to_string().contains("pause_split_ms"));
}

#[test]
fn rejects_relative_cleanup_command_paths() {
    let mut config = fresh_config();
    config.transcribe.cleanup.enabled = true;
    config.transcribe.cleanup.command = "tools/codex".to_string();

    let error = validate_transcribe_config(&config.transcribe)
        .expect_err("relative cleanup command path should be rejected");
    assert!(error.to_string().contains("executable name or absolute path"));
}

#[test]
fn default_settings_pass_transcription_validation() {
    let config = fresh_config();
    assert!(validate_transcribe_config(&config.transcribe).is_ok());
}

#[test]
fn unknown_whisper_model_names_the_model() {
    let mut config = fresh_config();
    config.transcribe.model.id = "huge".to_string();
    let error = validate_transcribe_config(&config.transcribe).expect_err("unknown model");
    assert_eq!(
        error,
        "unsupported whisper-rs model id: huge; use tiny, base, small, medium, or an .en variant"
    );
}

#[test]
fn paths_without_tilde_are_kept() {
    assert_eq!(expand_home("/srv/data").unwrap(), "/srv/data");
    assert_eq!(expand_home("relative/dir").unwrap(), "relative/dir");
}

#[test]
fn resolving_paths_expands_home_and_honours_the_runtime_override() {
    let mut config = lilaccaps::config::default_config_for("~/rt".into(), "~/skills/SKILL.md".into());
    lilaccaps::config::resolve_config_paths(&mut config, None, Some("/home/u")).unwrap();
    assert_eq!(config.runtime.home, "/home/u/rt");
    assert_eq!(config.agent.skill_path, "/home/u/skills/SKILL.md");

    let mut config = lilaccaps::config::default_config_for("~/rt".into(), "/s/SKILL.md".into());
    lilaccaps::config::resolve_config_paths(&mut config, Some("~/other"), Some("/home/u")).unwrap();
    assert_eq!(config.runtime.home, "/home/u/other");

    let mut relative = lilaccaps::config::default_config_for("rt".into(), "/s/SKILL.md".into());
    assert_eq!(
        lilaccaps::config::resolve_config_paths(&mut relative, None, Some("/home/u")).unwrap_err(),
        "runtime.home must be an absolute path or start with `~`: rt"
    );
    let mut homeless = lilaccaps::config::default_config_for("~/rt".into(), "/s/SKILL.md".into());
    assert_eq!(
        lilaccaps::config::resolve_config_paths(&mut homeless, None, None).unwrap_err(),
        "failed to detect home directory"
    );
}

#[test]
fn new_config_ignores_the_current_checkout_remote() {
    let config = lilaccaps::config::default_config_for("/tmp/rt".into(), "/tmp/SKILL.md".into());
    assert_eq!(config.release.github_repo, Some("zhuisDEV/lilaccaps".to_string()));
}
