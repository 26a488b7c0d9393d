use lilaccaps::workflow::{check_project_context, fingerprint_gate, render_state_gate, target_language_arg};
use lilaccaps::config::TranscribeCueConfig;
use lilaccaps::subtitles::SrtCue;
use lilaccaps::workflow::{
    accept, check_cues, ensure_alignment, is_revision_name, project_state, resume_plan, review_markdown,
    revision_name, ProjectFacts, RenderLink, WorkflowIssue, WorkflowStatus,
};

/// The last millisecond a cue may end at in a video of `seconds` seconds.
fn end_limit(seconds: i64) -> i64 {
    seconds * 1_000 + 50
}

#[test]
fn millisecond_alignment_is_not_rounded() {
    let source = vec![SrtCue {
        index: 7,
        start_ms: 123,
        end_ms: 1987,
        text: "Hello".into(),
    }];
    let mut target = source.clone();
    target[0].text = "你好".into();
    assert!(ensure_alignment(&source, &target).is_ok());
    target[0].start_ms += 1;
    assert!(ensure_alignment(&source, &target).is_err());
}

#[test]
fn structural_checks_reject_empty_duplicate_overlap_and_out_of_bounds_cues() {
    let policy = TranscribeCueConfig::default();
    let cue = SrtCue {
        index: 7,
        start_ms: 123,
        end_ms: 1987,
        text: "Hello".into(),
    };
    assert!(check_cues(&[], end_limit(2), &policy, "source").is_err());
    assert!(check_cues(&[cue.clone(), cue.clone()], end_limit(3), &policy, "source").is_err());
    assert!(check_cues(std::slice::from_ref(&cue), end_limit(1), &policy, "source").is_err());
    assert!(check_cues(&[cue], end_limit(2), &policy, "source").is_ok());
}

#[test]
fn structural_messages_and_readability_issues() {
    let policy = TranscribeCueConfig::default();
    let short = SrtCue { index: 1, start_ms: 0, end_ms: 300, text: "a\nb\nc".into() };
    let issues = check_cues(std::slice::from_ref(&short), end_limit(5), &policy, "target").unwrap();
    assert_eq!(issues.len(), 2);
    assert_eq!(issues[0].kind, "short_cue");
    assert_eq!(issues[0].message, "Cue lasts 300ms; check whether it can be read comfortably.");
    assert_eq!(issues[1].kind, "line_count");
    let err = check_cues(&[], 0, &policy, "source").unwrap_err();
    assert_eq!(err, "source captions contain no cues");
    let zero = SrtCue { index: 0, start_ms: 0, end_ms: 900, text: "x".into() };
    assert_eq!(
        check_cues(&[zero], end_limit(5), &policy, "source").unwrap_err(),
        "source captions have an invalid or duplicate cue ID 0"
    );
}

#[test]
fn revision_paths_cannot_escape_project() {
    assert!(!is_revision_name("source-../../secret", "source"));
    assert!(!is_revision_name("source-", "source"));
    assert!(is_revision_name("source-0001", "source"));
    assert_eq!(revision_name("target", 3), "target-0003");
}

#[test]
fn project_state_follows_the_review_gates() {
    let mut facts = ProjectFacts {
        raw_present: true,
        source_present: false,
        translating: true,
        target_present: false,
        target_current: false,
        acceptance_current: false,
        render_current: false,
    };
    assert_eq!(project_state(facts).0, "source_review_pending");
    facts.source_present = true;
    assert_eq!(project_state(facts).0, "translation_pending");
    facts.target_present = true;
    assert_eq!(project_state(facts).0, "translation_stale");
    facts.target_current = true;
    assert_eq!(project_state(facts).0, "review_required");
    facts.acceptance_current = true;
    assert_eq!(project_state(facts).0, "accepted");
    facts.render_current = true;
    assert_eq!(project_state(facts).0, "rendered");
}

fn status(state: &str, issues: Vec<WorkflowIssue>) -> WorkflowStatus {
    WorkflowStatus {
        project: "/p".into(),
        state: state.into(),
        media: "/m/input.mp4".into(),
        raw_subtitles: Some("/p/raw.srt".into()),
        source_subtitles: Some("/p/source-0001/captions.srt".into()),
        selected_subtitles: None,
        review_file: "/p/review.md".into(),
        issues,
        manually_edited_source: true,
        manually_edited_selected: false,
        next_action: "Do the next thing.".into(),
        last_output: None,
    }
}

#[test]
fn acceptance_needs_a_note_a_reviewable_state_and_a_stable_fingerprint() {
    let ready = status("review_required", vec![]);
    assert_eq!(accept("  ", &ready, true, true).unwrap_err(), "review note must describe what was checked");
    assert_eq!(
        accept("checked", &status("translation_pending", vec![]), true, true).unwrap_err(),
        "workflow is translation_pending; Do the next thing."
    );
    assert_eq!(accept("checked", &ready, false, true).unwrap_err(), "review fingerprint is not ready");
    assert_eq!(
        accept("checked", &ready, true, false).unwrap_err(),
        "captions or watermark changed during acceptance; review and accept them again"
    );
    let issue = WorkflowIssue { stage: "source".into(), cue_id: 3, kind: "readability".into(), message: "short".into() };
    let record = accept("  names and numbers checked ", &status("rendered", vec![issue]), true, true).unwrap();
    assert_eq!(record.note, "names and numbers checked");
    assert_eq!(record.issues_acknowledged, 1);
    assert!(record.manually_edited_source);
    assert!(!record.manually_edited_selected);
}

#[test]
fn resume_runs_only_the_missing_steps() {
    assert_eq!(
        resume_plan(false, true, true, true, true, false, false, false).unwrap_err(),
        "this project has no target language to translate"
    );
    let fresh = resume_plan(true, false, false, false, false, false, false, false).unwrap();
    assert!(fresh.transcribe && fresh.review_source && fresh.translate);
    let done = resume_plan(true, false, true, true, true, false, true, true).unwrap();
    assert!(!done.transcribe && !done.review_source && !done.translate);
    let stale = resume_plan(true, false, true, true, true, false, true, false).unwrap();
    assert!(stale.translate);
    let again = resume_plan(true, true, true, true, true, true, true, true).unwrap();
    assert!(again.review_source && again.translate);
    let untranslated = resume_plan(false, false, false, true, true, false, false, false).unwrap();
    assert!(!untranslated.transcribe && !untranslated.translate);
}

#[test]
fn review_note_lists_files_issues_and_the_next_action() {
    let issue = WorkflowIssue {
        stage: "target".into(),
        cue_id: 12,
        kind: "readability".into(),
        message: "two\nlines".into(),
    };
    let text = review_markdown(
        &status("accepted", vec![issue]),
        &Some("brand".into()),
        &Some(("checked".into(), 1)),
        &Some(RenderLink {
            output: "/o/out.mp4".into(),
            verification: "verification-1.json".into(),
            verification_path: "/p/verification-1.json".into(),
        }),
    );
    assert!(text.starts_with("# Caption review\n\nState: **accepted**\n\nSource media: `/m/input.mp4`\n\n"));
    assert!(text.contains("- Raw transcript: [raw.srt](/p/raw.srt)\n- Reviewed source: [captions.srt](/p/source-0001/captions.srt)\n\nThe agent"));
    assert!(text.contains("Source edited after its agent pass: **true**. Selected captions edited after their agent pass: **false**.\n"));
    assert!(text.contains("\nWatermark: `brand` (a project copy with its own assets).\n"));
    assert!(text.contains("\n## Review issues\n\n- target cue 12 / readability: two lines\n"));
    assert!(text.contains("\n## Last acceptance\n\nchecked\n\nAcknowledged issues: 1. The acceptance"));
    assert!(text.contains("\n## Next action\n\nDo the next thing.\n"));
    assert!(text.ends_with("\nOutput: [/o/out.mp4](/o/out.mp4)\n\nVerification: [verification-1.json](/p/verification-1.json)\n"));
}

#[test]
fn review_note_without_issues_says_so() {
    let text = review_markdown(&status("review_required", vec![]), &None, &None, &None);
    assert!(text.contains("No automated issues were found."));
    assert!(!text.contains("Watermark"));
    assert!(!text.contains("Last acceptance"));
    assert!(text.ends_with("\n## Next action\n\nDo the next thing.\n"));
}

#[test]
fn project_start_and_render_gates() {
    assert_eq!(target_language_arg(None), Ok(None));
    assert_eq!(target_language_arg(Some(" zh ")), Ok(Some("zh".to_string())));
    assert_eq!(target_language_arg(Some("  ")), Err("target language must not be empty".to_string()));
    assert!(check_project_context("glossary").is_ok());
    assert_eq!(
        check_project_context(&"x".repeat(32_001)),
        Err("caption context is too long; use a glossary or summary under 32,000 characters".to_string())
    );
    assert!(render_state_gate("accepted", "x").is_ok());
    assert!(render_state_gate("rendered", "x").is_ok());
    assert_eq!(render_state_gate("review_required", "Review it."), Err("workflow is review_required; Review it.".to_string()));
    assert!(fingerprint_gate("abc", "abc").is_ok());
    assert_eq!(
        fingerprint_gate("abc", "abd"),
        Err("captions or watermark changed after acceptance; review and accept them again".to_string())
    );
}
