use lilaccaps::caption_agent::{
    accept_agent_output, batch_ranges, joined_utterance, select_utterances, utterance_groups, close_review, deduplicate_issues, guard_transcript, number_issues,
    review_transcript, split_failed_batch, translate_cues, validate_source, AgentCue, ReviewIssue, ReviewTask,
    join_batch_outputs, next_batch_step, same_cue_frames, BatchStep, ATTEMPTS_PER_BATCH,
};
use lilaccaps::config::{TranscribeCleanupConfig, TranslateConfig};
use lilaccaps::subtitles::SrtCue;

fn cues() -> Vec<SrtCue> {
    vec![
        SrtCue { index: 7, start_ms: 123, end_ms: 1987, text: "Hello there.".into() },
        SrtCue { index: 42, start_ms: 2011, end_ms: 3899, text: "Welcome back!".into() },
    ]
}

fn reply(items: &[(usize, &str)]) -> Vec<AgentCue> {
    items.iter().map(|(id, text)| AgentCue { cue_id: *id, text: text.to_string() }).collect()
}

fn issue(cue_id: usize, kind: &str, message: &str) -> ReviewIssue {
    ReviewIssue { cue_id, kind: kind.into(), message: message.into() }
}

fn codex_translate_config() -> TranslateConfig {
    TranslateConfig { model: "gpt-5.6-luna".into(), ..TranslateConfig::default() }
}

#[test]
fn reordered_ids_reconstruct_original_order_and_exact_milliseconds() {
    let source = cues();
    let (result, _) =
        accept_agent_output(&reply(&[(42, "欢迎回来！"), (7, "你好。")]), Vec::new(), &source).unwrap();
    assert_eq!((result[0].index, result[0].start_ms, result[0].end_ms), (7, 123, 1987));
    assert_eq!((result[1].index, result[1].start_ms, result[1].end_ms), (42, 2011, 3899));
    assert_eq!(result[0].text, "你好。");
}

#[test]
fn missing_duplicate_unknown_empty_and_fabricated_approval_are_rejected() {
    let bad_replies: Vec<(Vec<AgentCue>, Vec<ReviewIssue>)> = vec![
        (reply(&[]), vec![]),
        (reply(&[(7, "A"), (7, "B")]), vec![]),
        (reply(&[(7, "A"), (1, "B")]), vec![]),
        (reply(&[(7, "A"), (42, " ")]), vec![]),
        (reply(&[(7, "A"), (42, "B")]), vec![issue(99, "other", "x")]),
    ];
    for (cues_reply, issues) in bad_replies {
        assert!(accept_agent_output(&cues_reply, issues, &cues()).is_err());
    }
}

#[test]
fn reply_errors_name_what_was_wrong() {
    assert_eq!(
        accept_agent_output(&reply(&[(7, "A")]), vec![], &cues()).unwrap_err(),
        "caption agent changed the cue count"
    );
    assert_eq!(
        accept_agent_output(&reply(&[(7, "A"), (42, "B\n\nC")]), vec![], &cues()).unwrap_err(),
        "caption agent returned duplicate, unknown or empty cues"
    );
    assert_eq!(
        accept_agent_output(&reply(&[(7, "A"), (42, "B")]), vec![issue(7, "approval", "fine")], &cues())
            .unwrap_err(),
        "caption agent returned an invalid issue"
    );
    assert_eq!(
        accept_agent_output(&reply(&[(7, "A"), (42, "B")]), vec![issue(7, "other", "   ")], &cues())
            .unwrap_err(),
        "caption agent returned an invalid issue"
    );
}

#[test]
fn reply_text_is_trimmed_and_crlf_becomes_lf() {
    let (result, issues) = accept_agent_output(
        &reply(&[(7, "  one\r\ntwo  "), (42, "three")]),
        vec![issue(42, "readability", "short")],
        &cues(),
    )
    .unwrap();
    assert_eq!(result[0].text, "one\ntwo");
    assert_eq!(result[1].text, "three");
    assert_eq!(issues, vec![issue(42, "readability", "short")]);
}

#[test]
fn source_validation_reports_the_first_faulty_cue() {
    assert_eq!(validate_source(&[]).unwrap_err(), "cannot review an empty subtitle transcript");
    assert!(validate_source(&cues()).is_ok());
    let mut duplicate = cues();
    duplicate[1].index = 7;
    assert_eq!(validate_source(&duplicate).unwrap_err(), "caption source cue IDs must be positive and unique");
    let mut zero = cues();
    zero[0].index = 0;
    assert_eq!(validate_source(&zero).unwrap_err(), "caption source cue IDs must be positive and unique");
    let mut timing = cues();
    timing[1].end_ms = timing[1].start_ms;
    assert_eq!(validate_source(&timing).unwrap_err(), "caption source cue 42 has invalid text or timing");
    let mut blank = cues();
    blank[0].text = "  ".into();
    assert_eq!(validate_source(&blank).unwrap_err(), "caption source cue 7 has invalid text or timing");
    let mut long = cues();
    long[1].text = "x".repeat(8001);
    assert_eq!(
        validate_source(&long).unwrap_err(),
        "caption source cue 42 exceeds the 8,000-character per-cue limit"
    );
}

#[test]
fn batches_split_at_twenty_four_cues_and_eight_thousand_characters() {
    let many: Vec<SrtCue> = (1..=50)
        .map(|i| SrtCue { index: i, start_ms: i as i64 * 1000, end_ms: i as i64 * 1000 + 500, text: "hi".into() })
        .collect();
    assert_eq!(batch_ranges(&many), vec![(0, 24), (24, 48), (48, 50)]);
    let heavy: Vec<SrtCue> = (1..=3)
        .map(|i| SrtCue { index: i, start_ms: 0, end_ms: 1, text: "x".repeat(5000) })
        .collect();
    assert_eq!(batch_ranges(&heavy), vec![(0, 1), (1, 2), (2, 3)]);
    let exact: Vec<SrtCue> = (1..=3)
        .map(|i| SrtCue { index: i, start_ms: 0, end_ms: 1, text: "x".repeat(4000) })
        .collect();
    assert_eq!(batch_ranges(&exact), vec![(0, 2), (2, 3)]);
    assert!(batch_ranges(&[]).is_empty());
}

#[test]
fn duplicate_issues_collapse_and_sort_by_cue() {
    let issues = vec![
        issue(9, "other", "b"),
        issue(3, "readability", "a"),
        issue(9, "other", "b"),
        issue(3, "other", "c"),
    ];
    assert_eq!(
        deduplicate_issues(&issues),
        vec![issue(3, "readability", "a"), issue(3, "other", "c"), issue(9, "other", "b")]
    );
}

#[test]
fn guard_restores_source_text_for_unsafe_transcript_edits() {
    let source = cues();
    let mut draft = cues();
    draft[0].text = "An entirely invented speech.".into();
    draft[1].text = "Welcome back!".into();
    let mut issues = Vec::new();
    guard_transcript(&ReviewTask::Transcribe, &source, &mut draft, &vec![false, false], &mut issues);
    assert_eq!(draft, source);
    assert_eq!(issues.len(), 1);
    assert_eq!(issues[0].kind, "unsafe_edit");
    assert_eq!(issues[0].cue_id, 7);

    let mut lines = cues();
    lines[1].text = "Welcome\nback!".into();
    let mut issues = Vec::new();
    guard_transcript(&ReviewTask::Transcribe, &source, &mut lines, &vec![false, false], &mut issues);
    assert_eq!(lines[1].text, "Welcome back!");
    assert_eq!(issues[0].cue_id, 42);

    let mut numbers = cues();
    let mut issues = Vec::new();
    guard_transcript(&ReviewTask::Transcribe, &source, &mut numbers, &vec![false, true], &mut issues);
    assert_eq!(issues.len(), 1);
    assert_eq!(issues[0].cue_id, 42);
}

#[test]
fn guard_leaves_translations_alone() {
    let source = cues();
    let mut draft = cues();
    draft[0].text = "你好。\n第二行".into();
    let mut issues = Vec::new();
    guard_transcript(&ReviewTask::Translate("zh".into()), &source, &mut draft, &vec![true, true], &mut issues);
    assert_eq!(draft[0].text, "你好。\n第二行");
    assert!(issues.is_empty());
}

#[test]
fn number_issues_follow_the_flags() {
    let found = number_issues(&cues(), &vec![false, true]);
    assert_eq!(found.len(), 1);
    assert_eq!(found[0].cue_id, 42);
    assert_eq!(found[0].kind, "number_mismatch");
    assert!(number_issues(&cues(), &vec![]).is_empty());
}

#[test]
fn unchanged_generation_issue_is_carried_into_the_report() {
    let mut source = cues();
    source[0].end_ms = 600;
    let generated = source.clone();
    let mut verified = source.clone();
    verified[1].text = "Welcome home!".into();
    let generation_issues = vec![
        issue(7, "name_consistency", "check the name"),
        issue(42, "meaning_alignment", "fixed later"),
        issue(42, "uncertain_transcript", "unclear"),
        issue(7, "number_mismatch", "old count"),
    ];
    let reviewed = close_review(
        &ReviewTask::Translate("zh".into()),
        "openai/gpt-5.6-luna",
        "gpt-5.6-terra",
        &source,
        &generated,
        verified.clone(),
        &generation_issues,
        vec![issue(42, "other", "second pass")],
        &vec![false, false],
        1,
        1,
    );
    assert_eq!(reviewed.cues, verified);
    assert_eq!(reviewed.report.stage, "translation");
    assert_eq!(reviewed.report.model, "gpt-5.6-luna");
    assert_eq!(reviewed.report.verification_model.as_deref(), Some("gpt-5.6-terra"));
    assert_eq!(reviewed.report.review_mode, "text_only");
    assert_eq!(reviewed.report.changed_cues, 1);
    let kinds: Vec<(usize, &str)> =
        reviewed.report.issues.iter().map(|i| (i.cue_id, i.kind.as_str())).collect();
    assert_eq!(
        kinds,
        vec![(7, "name_consistency"), (7, "readability"), (42, "other"), (42, "uncertain_transcript")]
    );
}

#[test]
fn review_plans_check_settings_language_source_and_context() {
    let mut cleanup = TranscribeCleanupConfig::default();
    let plan = review_transcript(&cleanup, &cues(), "glossary").unwrap();
    assert_eq!(plan.model, "gpt-5.6-terra");
    assert_eq!(plan.review_model, "gpt-5.6-terra");
    assert_eq!(plan.batches, vec![(0, 2)]);
    assert_eq!(
        review_transcript(&cleanup, &cues(), &"x".repeat(32_001)).unwrap_err(),
        "caption context is too long; use a glossary or summary under 32,000 characters"
    );
    cleanup.reasoning_effort = "extreme".into();
    assert_eq!(
        review_transcript(&cleanup, &cues(), "").unwrap_err(),
        "transcribe.cleanup.reasoning_effort must be low, medium, high, xhigh, or max"
    );
    let translate = codex_translate_config();
    assert_eq!(
        translate_cues(&translate, "  ", &cues(), "").unwrap_err(),
        "caption translation requires a target language"
    );
    let plan = translate_cues(&translate, "zh", &cues(), "").unwrap();
    assert_eq!(plan.review_model, "gpt-5.6-terra");
    assert!(matches!(plan.task, ReviewTask::Translate(ref l) if l == "zh"));
    assert_eq!(
        translate_cues(&TranslateConfig::default(), "zh", &cues(), "").unwrap_err(),
        "invalid Codex model in translate.model"
    );
}

#[test]
fn failed_batches_split_until_a_single_cue_fails() {
    assert_eq!(split_failed_batch(&cues(), 0, 2), Ok(1));
    assert_eq!(
        split_failed_batch(&cues(), 1, 2).unwrap_err(),
        "caption agent returned invalid structured output for cue 42 after bounded retries; no caption output was published"
    );
}

fn timed(index: usize, start_ms: i64, end_ms: i64, text: &str) -> SrtCue {
    SrtCue { index, start_ms, end_ms, text: text.into() }
}

#[test]
fn utterances_close_at_sentence_ends_and_long_pauses() {
    let source = vec![
        timed(1, 0, 900, "The revenue was"),
        timed(2, 1000, 1900, "less than last year."),
        timed(3, 2000, 2900, "\"Really?\")  "),
        timed(4, 3000, 3900, "Then we"),
        timed(5, 6000, 6900, "waited"),
    ];
    assert_eq!(utterance_groups(&source), vec![(0, 2, 37), (2, 3, 13), (3, 4, 8), (4, 5, 7)]);
    assert_eq!(joined_utterance(&source, 0, 2), "The revenue was less than last year.");
    assert_eq!(joined_utterance(&source, 2, 3), "\"Really?\")");
}

#[test]
fn utterances_hold_at_most_thirty_two_cues() {
    let source: Vec<SrtCue> = (0..40).map(|i| timed(i + 1, i as i64 * 100, i as i64 * 100 + 50, "word")).collect();
    let groups = utterance_groups(&source);
    assert_eq!(groups, vec![(0, 32, 160), (32, 40, 40)]);
}

#[test]
fn selected_utterances_cover_the_batch_and_add_neighbours() {
    let groups = vec![(0, 2, 10), (2, 4, 10), (4, 6, 10), (6, 8, 10)];
    assert_eq!(select_utterances(&groups, 3, 5), vec![0, 1, 2, 3]);
    assert_eq!(select_utterances(&groups, 0, 1), vec![0, 1]);
    assert_eq!(select_utterances(&groups, 8, 9), Vec::<usize>::new());
    let heavy = vec![(0, 1, 31_600), (1, 2, 500), (2, 3, 600)];
    assert_eq!(select_utterances(&heavy, 1, 2), vec![1, 2]);
}

#[test]
fn joined_utterances_collapse_white_space() {
    let source = vec![timed(1, 0, 1, "  a \t b "), timed(2, 1, 2, "c\n d")];
    assert_eq!(joined_utterance(&source, 0, 2), "a b c d");
}

#[test]
fn batched_review_keeps_every_cue_id_and_timestamp() {
    let source: Vec<SrtCue> = (0..60)
        .map(|k| SrtCue {
            index: 100 + k,
            start_ms: (k as i64) * 1000,
            end_ms: (k as i64) * 1000 + 900,
            text: format!("cue {k}"),
        })
        .collect();
    let batches = batch_ranges(&source);
    assert_eq!(batches, vec![(0, 24), (24, 48), (48, 60)]);
    let mut joined = Vec::new();
    for (start, end) in batches {
        // The reply lists the batch backwards with new text.
        let items: Vec<(usize, String)> =
            source[start..end].iter().rev().map(|c| (c.index, format!("{} reviewed", c.text))).collect();
        let reply: Vec<AgentCue> = items.iter().map(|(id, text)| AgentCue { cue_id: *id, text: text.clone() }).collect();
        let (cues, _) = accept_agent_output(&reply, vec![], &source[start..end]).unwrap();
        joined.extend(cues);
    }
    assert_eq!(joined.len(), source.len());
    for (reviewed, original) in joined.iter().zip(&source) {
        assert_eq!((reviewed.index, reviewed.start_ms, reviewed.end_ms), (original.index, original.start_ms, original.end_ms));
        assert_eq!(reviewed.text, format!("{} reviewed", original.text));
    }
}

#[test]
fn failed_batches_are_retried_then_split_then_given_up() {
    let source = cues();
    assert!(matches!(next_batch_step(&source, 1, 0, 2, true), BatchStep::Accept));
    assert!(matches!(next_batch_step(&source, 1, 0, 2, false), BatchStep::Retry));
    assert!(matches!(next_batch_step(&source, ATTEMPTS_PER_BATCH, 0, 2, false), BatchStep::Split(1)));
    match next_batch_step(&source, ATTEMPTS_PER_BATCH, 1, 2, false) {
        BatchStep::Fail(message) => assert_eq!(
            message,
            "caption agent returned invalid structured output for cue 42 after bounded retries; no caption output was published"
        ),
        other => panic!("unexpected step {other:?}"),
    }
}

#[test]
fn batch_results_are_joined_only_when_they_keep_the_source_frames() {
    let source = cues();
    let mut first = vec![source[0].clone()];
    first[0].text = "Hi there.".into();
    let second = vec![source[1].clone()];
    let joined = join_batch_outputs(&source, &vec![(0, 1), (1, 2)], vec![first.clone(), second.clone()]).unwrap();
    assert_eq!(joined.len(), 2);
    assert_eq!(joined[0].text, "Hi there.");
    assert!(same_cue_frames(&joined, &source));
    let mut moved = second.clone();
    moved[0].start_ms += 1;
    assert_eq!(
        join_batch_outputs(&source, &vec![(0, 1), (1, 2)], vec![first.clone(), moved]),
        Err("caption agent batch results do not match their source cues".to_string())
    );
    assert!(join_batch_outputs(&source, &vec![(0, 1), (1, 2)], vec![first]).is_err());
}
