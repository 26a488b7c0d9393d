use lilaccaps::burnin::BurninOutput;
use lilaccaps::caption_agent::{
    review_instructions, ReviewTask, GENERATE_PHASE, REPLY_RULES, RETRY_NOTE, TRANSCRIBE_INSTRUCTIONS,
    TRANSLATE_INSTRUCTIONS, VERIFY_PHASE,
};
use lilaccaps::report::{
    burnin_report, doctor_lines, install_lines, transcribe_report, translate_report, uninstall_lines, update_lines,
    workflow_lines, InstallSummary,
};
use lilaccaps::runtime::{
    removal_refusal, CommandDependency, DependencyStatus, DependencyUpdateReport, DoctorReport, RuntimeHealth,
};
use lilaccaps::transcribe::TranscribeOutput;
use lilaccaps::translate::TranslateOutput;
use lilaccaps::workflow::{WorkflowIssue, WorkflowStatus};

fn parts(path: &str) -> Vec<String> {
    path.split('/').filter(|p| !p.is_empty()).map(String::from).collect()
}

#[test]
fn transcript_generation_instructions_start_with_the_task() {
    let text = review_instructions(&ReviewTask::Transcribe, false, false);
    assert_eq!(text, format!("{TRANSCRIBE_INSTRUCTIONS} {GENERATE_PHASE}{REPLY_RULES}"));
    assert!(text.starts_with("Conservatively correct ASR punctuation"));
    assert!(text.ends_with("Use an empty issues array when no issues remain."));
}

#[test]
fn translation_verification_retry_carries_every_part() {
    let text = review_instructions(&ReviewTask::Translate("zh".into()), true, true);
    assert_eq!(text, format!("{TRANSLATE_INSTRUCTIONS} {VERIFY_PHASE}{REPLY_RULES}{RETRY_NOTE}"));
    assert!(text.contains("$20 trillion is 20万亿美元"));
    assert!(text.ends_with("duplicate or unknown IDs and empty text."));
}

#[test]
fn runtime_home_under_home_with_marker_may_be_removed() {
    let refusal = removal_refusal(&parts("/home/u/.lilac/lilaccaps"), &parts("/home/u"), &parts("/tmp"), true, "x");
    assert_eq!(refusal, None);
    // The conventional location needs no marker.
    let refusal = removal_refusal(&parts("/home/u/.lilac/lilaccaps"), &parts("/home/u"), &parts("/tmp"), false, "x");
    assert_eq!(refusal, None);
}

#[test]
fn protected_runtime_homes_are_refused() {
    let home = parts("/home/u");
    let message = Some("refusing to remove protected runtime home: /home".to_string());
    assert_eq!(removal_refusal(&parts("/home"), &home, &parts("/tmp"), true, "/home"), message);
    assert_eq!(
        removal_refusal(&parts("/"), &home, &parts("/tmp"), true, "/"),
        Some("refusing to remove protected runtime home: /".to_string())
    );
    assert_eq!(
        removal_refusal(&parts("/work/a/b/c"), &home, &parts("/work/a/b/c/d"), true, "/work/a/b/c"),
        Some("refusing to remove protected runtime home: /work/a/b/c".to_string())
    );
    // A sibling whose name only shares a prefix is not an ancestor.
    assert_eq!(removal_refusal(&parts("/home/u2/x/y"), &home, &parts("/tmp"), true, "/home/u2/x/y"), None);
}

#[test]
fn shallow_and_unowned_runtime_homes_are_refused() {
    let home = parts("/home/u");
    assert_eq!(
        removal_refusal(&parts("/opt/data"), &home, &parts("/tmp"), true, "/opt/data"),
        Some("refusing to remove shallow runtime home: /opt/data".to_string())
    );
    assert_eq!(removal_refusal(&parts("/opt/lilaccaps"), &home, &parts("/tmp"), true, "/opt/lilaccaps"), None);
    assert_eq!(
        removal_refusal(&parts("/srv/a/b/c"), &home, &parts("/tmp"), false, "/srv/a/b/c"),
        Some("refusing to remove unowned runtime home without .lilaccaps-runtime: /srv/a/b/c".to_string())
    );
}

#[test]
fn transcription_report_lists_every_field() {
    let output = TranscribeOutput {
        input: "a.mp4".into(),
        output: "a.srt".into(),
        model_path: "/m/ggml-base.bin".into(),
        engine: "whisper-rs".into(),
        model: "base".into(),
        language: "en".into(),
        fallback_language_used: false,
        fallback_decoding_used: true,
        decoding_strategy: "greedy".into(),
        cue_count: 12,
        qa_warning_count: 0,
        cue_timing: "word".into(),
        segmentation_strategy: "speech".into(),
        window_count: 3,
        cleanup: "disabled".into(),
        status: "generated".into(),
    };
    let lines = transcribe_report(&output);
    assert_eq!(lines.len(), 17);
    assert_eq!(lines[0], "command = transcribe");
    assert_eq!(lines[9], "fallback_decoding_used = true");
    assert_eq!(lines[10], "cue_count = 12");
    assert_eq!(lines[14], "window_count = 3");
    assert_eq!(lines[16], "status = generated");
}

#[test]
fn translation_report_joins_targets_with_commas() {
    let output = TranslateOutput {
        input: "a.srt".into(),
        output: "a.translated.srt".into(),
        targets: vec!["zh".into(), "ja".into()],
        append: false,
        model: "gpt".into(),
        verification_model: "gpt-review".into(),
        review_report: "a.translated.srt.review.json".into(),
        review_issues: 2,
        status: "translated".into(),
    };
    assert_eq!(
        translate_report(&output),
        vec![
            "command = translate",
            "input = a.srt",
            "output = a.translated.srt",
            "targets = zh,ja",
            "append = false",
            "model = gpt",
            "status = translated",
        ]
    );
}

#[test]
fn burnin_report_prints_numbers_in_decimal() {
    let output = BurninOutput {
        video: "v.mp4".into(),
        subs: "v.srt".into(),
        output: "v.burned.mp4".into(),
        font: "auto".into(),
        colour: "default".into(),
        size: 0,
        line_spacing: 120,
        outline_enabled: true,
        outline_colour: "black".into(),
        outline_width: 2,
        renderer: "ffmpeg-subtitles".into(),
        renderer_reason: "none".into(),
        status: "rendered".into(),
    };
    let lines = burnin_report(&output);
    assert_eq!(lines.len(), 14);
    assert_eq!(lines[6], "size = 0");
    assert_eq!(lines[7], "line_spacing = 120");
    assert_eq!(lines[10], "outline_width = 2");
}

fn dependency(name: &str, available: bool) -> DependencyStatus {
    DependencyStatus {
        dependency: CommandDependency {
            name: name.into(),
            purpose: "p".into(),
            install_hint: "h".into(),
            brew_package: None,
            version_args: vec!["-version".into()],
        },
        available,
        healthy: available,
        path: None,
        version: None,
        error: None,
    }
}

#[test]
fn doctor_lines_list_advisories_with_bars_and_dependencies_last() {
    let report = DoctorReport {
        statuses: vec![dependency("ffmpeg", true), dependency("magick", false)],
        missing_commands: vec!["magick".into()],
        advisories: vec!["one".into(), "two".into()],
        brew_packages: vec![],
        can_fix_with_brew: false,
    };
    let health = RuntimeHealth {
        installed: true,
        config_valid: true,
        healthy: false,
        cargo_available: true,
        ffmpeg_available: true,
        ffprobe_available: true,
        cmake_available: true,
        magick_available: false,
        build_ready: true,
        fallback_renderer_ready: false,
        model_ready: true,
        missing: vec!["magick".into()],
    };
    let lines = doctor_lines(true, &vec![], &report, &health);
    assert_eq!(
        lines,
        vec![
            "command = doctor",
            "fix_requested = true",
            "fixed_packages = none",
            "missing_commands = magick",
            "brew_packages = none",
            "can_fix_with_brew = false",
            "healthy = false",
            "build_ready = true",
            "fallback_renderer_ready = false",
            "advisories = one | two",
            "dependency.ffmpeg = ok",
            "dependency.magick = missing",
        ]
    );
}

#[test]
fn workflow_lines_skip_absent_files() {
    let status = WorkflowStatus {
        project: "/p".into(),
        state: "review_required".into(),
        media: "/v.mp4".into(),
        raw_subtitles: Some("/p/raw.srt".into()),
        source_subtitles: Some("/p/source-0001/captions.srt".into()),
        selected_subtitles: None,
        review_file: "/p/review.md".into(),
        issues: vec![WorkflowIssue { stage: "source".into(), cue_id: 1, kind: "k".into(), message: "m".into() }],
        manually_edited_source: false,
        manually_edited_selected: false,
        next_action: "Review.".into(),
        last_output: None,
    };
    assert_eq!(
        workflow_lines(&status),
        vec![
            "command = workflow",
            "project = /p",
            "state = review_required",
            "source_subtitles = /p/source-0001/captions.srt",
            "review = /p/review.md",
            "review_issues = 1",
            "next_action = Review.",
        ]
    );
}

#[test]
fn lifecycle_reports() {
    let install = install_lines(&InstallSummary {
        binary_path: "/b".into(),
        config_path: "/c".into(),
        runtime_home: "/r".into(),
        model_path: "/m".into(),
        skill_path: "/s".into(),
        bootstrap_path: "/r/bootstrap.md".into(),
        config_created: true,
        fixed_packages: vec!["cmake".into(), "imagemagick".into()],
    });
    assert_eq!(install[0], "installed = true");
    assert_eq!(install[7], "config_created = true");
    assert_eq!(install[8], "fixed_packages = cmake, imagemagick");
    let skipped = DependencyUpdateReport {
        updated_packages: vec![],
        skipped_reason: Some("dependency updates were skipped by request".into()),
    };
    let update = update_lines("o/n", "1.2.3", "v1.2.3", "/b", &skipped);
    assert_eq!(update[5], "dependency_update = skipped");
    assert_eq!(update[6], "dependency_packages = none");
    assert_eq!(update[7], "dependency_update_reason = dependency updates were skipped by request");
    let done = DependencyUpdateReport { updated_packages: vec!["ffmpeg-full".into()], skipped_reason: None };
    let update = update_lines("o/n", "1.2.3", "v1.2.3", "/b", &done);
    assert_eq!(update[5], "dependency_update = completed");
    assert_eq!(update[7], "dependency_update_reason = none");
    assert_eq!(
        uninstall_lines("/b", "/c", "/r", false),
        vec!["uninstalled = true", "binary_path = /b", "config_path = /c", "runtime_home = /r", "skill_removed = false"]
    );
}
