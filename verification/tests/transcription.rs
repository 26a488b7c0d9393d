use lilaccaps::config::{default_config_for, TranscribeConfig, TranscribeEngine};
use lilaccaps::segmentation::{
    active_frame_regions, fixed_windows, merge_nearby_regions, milliseconds_to_samples,
};
use lilaccaps::subtitles::SubtitleCue;
use lilaccaps::transcribe::{
    append_boundary_cues, apply_transcribe_overrides, boundary_texts_match, build_attempts,
    clamp_segment_to_chunk, clamp_token_to_chunk, constrain_cue_to_chunk, cue_belongs_to_chunk,
    detected_language_attempts, midpoint, milliseconds_to_centiseconds, requested_language,
    samples_to_centiseconds, select_cue_timing, transcript_text_key, AttemptPlan, DecodeStrategy,
    cue_policy,
};
use lilaccaps::subtitles::TimedWord;

fn transcribe_config() -> TranscribeConfig {
    default_config_for("/tmp/rt".to_string(), "/tmp/SKILL.md".to_string()).transcribe
}

#[test]
fn engine_override_selects_a_compatible_default_model() {
    let mut config = transcribe_config();
    apply_transcribe_overrides(&mut config, Some("faster-whisper".to_string()), None, None)
        .expect("faster-whisper override should be valid");

    assert_eq!(config.engine, TranscribeEngine::FasterWhisper);
    assert_eq!(config.model.id, "large-v3-turbo");

    apply_transcribe_overrides(&mut config, Some("whisper-rs".to_string()), None, None)
        .expect("whisper-rs override should be valid");
    assert_eq!(config.engine, TranscribeEngine::WhisperRs);
    assert_eq!(config.model.id, "base");
}

#[test]
fn unknown_engine_is_rejected_by_name() {
    let mut config = transcribe_config();
    let error = apply_transcribe_overrides(&mut config, Some("vosk".to_string()), None, None)
        .unwrap_err();
    assert_eq!(
        error,
        "unsupported transcription engine `vosk`; use whisper-rs or faster-whisper"
    );
}

#[test]
fn decode_strategy_labels_are_stable() {
    assert_eq!(DecodeStrategy::BeamSearch.label(), "beam");
    assert_eq!(DecodeStrategy::Greedy.label(), "greedy");
}

#[test]
fn attempt_plan_marks_decoding_fallback_only_for_greedy() {
    let beam = AttemptPlan::new("zh", false, false, DecodeStrategy::BeamSearch);
    let greedy = AttemptPlan::new("zh", false, true, DecodeStrategy::Greedy);

    assert!(!beam.fallback_decoding_used);
    assert!(greedy.fallback_decoding_used);
}

#[test]
fn auto_language_attempts_use_detected_language_only() {
    let attempts = build_attempts(None, Some("zh"));

    assert_eq!(attempts.len(), 2);
    assert_eq!(attempts[0], AttemptPlan::new("zh", false, false, DecodeStrategy::BeamSearch));
    assert_eq!(attempts[1], AttemptPlan::new("zh", false, true, DecodeStrategy::Greedy));
}

#[test]
fn explicit_language_attempts_include_detected_fallback_when_different() {
    let attempts = build_attempts(Some("ja"), Some("zh"));

    assert_eq!(attempts.len(), 4);
    assert_eq!(attempts[0], AttemptPlan::new("ja", false, false, DecodeStrategy::BeamSearch));
    assert_eq!(attempts[1], AttemptPlan::new("ja", false, true, DecodeStrategy::Greedy));
    assert_eq!(attempts[2], AttemptPlan::new("zh", true, false, DecodeStrategy::BeamSearch));
    assert_eq!(attempts[3], AttemptPlan::new("zh", true, true, DecodeStrategy::Greedy));
}

#[test]
fn explicit_language_attempts_do_not_require_detection_first() {
    let attempts = build_attempts(Some("ja"), None);

    assert_eq!(attempts.len(), 2);
    assert_eq!(attempts[0], AttemptPlan::new("ja", false, false, DecodeStrategy::BeamSearch));
    assert_eq!(attempts[1], AttemptPlan::new("ja", false, true, DecodeStrategy::Greedy));
}

#[test]
fn detected_language_fallback_attempts_are_marked() {
    let attempts = detected_language_attempts("zh");

    assert_eq!(attempts.len(), 2);
    assert_eq!(attempts[0], AttemptPlan::new("zh", true, false, DecodeStrategy::BeamSearch));
    assert_eq!(attempts[1], AttemptPlan::new("zh", true, true, DecodeStrategy::Greedy));
}

#[test]
fn same_requested_and_detected_language_is_tried_once() {
    assert_eq!(build_attempts(Some("zh"), Some("zh")).len(), 2);
}

#[test]
fn requested_language_is_normalised() {
    assert_eq!(requested_language(Some(" ZH "), Some("en")).as_deref(), Some("zh"));
    assert_eq!(requested_language(Some("auto"), Some("en")), None);
    assert_eq!(requested_language(None, Some("EN")).as_deref(), Some("en"));
    assert_eq!(requested_language(None, None), None);
}

#[test]
fn fixed_windows_bound_long_input() {
    let chunks = fixed_windows(16_000 * 75, 16_000, 30, 2);

    assert_eq!(chunks, vec![0..480_000, 448_000..928_000, 896_000..1_200_000]);
}

#[test]
fn fixed_windows_overlap_without_exceeding_input() {
    assert_eq!(fixed_windows(75, 1, 30, 2), vec![0..30, 28..58, 56..75]);
}

#[test]
fn region_helpers_merge_and_measure() {
    assert_eq!(milliseconds_to_samples(350, 16_000), 5_600);
    assert_eq!(merge_nearby_regions(vec![0..10, 12..20, 40..50], 5), vec![0..20, 40..50]);
    assert_eq!(
        active_frame_regions(&[false, true, true, false, true], 10, 45),
        vec![10..30, 40..45]
    );
}

#[test]
fn overlap_ownership_assigns_boundary_to_one_chunk() {
    let chunks = fixed_windows(75, 1, 30, 2);
    let boundary_cue = SubtitleCue {
        index: 1,
        start_cs: 2_850,
        end_cs: 2_950,
        text: "boundary".to_string(),
    };

    assert!(!cue_belongs_to_chunk(&boundary_cue, 0, &chunks, 1));
    assert!(cue_belongs_to_chunk(&boundary_cue, 1, &chunks, 1));

    let mut clipped = SubtitleCue {
        index: 1,
        start_cs: 2_800,
        end_cs: 3_400,
        text: "owned by the second chunk".to_string(),
    };
    assert!(constrain_cue_to_chunk(&mut clipped, 1, &chunks, 1));
    assert_eq!(clipped.start_cs, 2_900);
    assert_eq!(clipped.end_cs, 3_400);
}

#[test]
fn repeated_boundary_cues_are_deduplicated() {
    let mut cues = vec![(
        0,
        SubtitleCue {
            index: 1,
            start_cs: 2_800,
            end_cs: 2_920,
            text: "Hello".to_string(),
        },
    )];
    append_boundary_cues(
        &mut cues,
        vec![SubtitleCue {
            index: 1,
            start_cs: 2_900,
            end_cs: 3_000,
            text: "hello!".to_string(),
        }],
        1,
    );

    assert_eq!(cues.len(), 1);
    assert_eq!(cues[0].1.start_cs, 2_800);
    assert_eq!(cues[0].1.end_cs, 3_000);
}

#[test]
fn contained_boundary_suffix_is_deduplicated() {
    let mut cues = vec![(
        3,
        SubtitleCue {
            index: 1,
            start_cs: 10_700,
            end_cs: 11_300,
            text: "只有在异常输入中保持稳定才真正适合日常使用".to_string(),
        },
    )];
    append_boundary_cues(
        &mut cues,
        vec![SubtitleCue {
            index: 1,
            start_cs: 11_300,
            end_cs: 11_500,
            text: "才真正适合日常使用".to_string(),
        }],
        4,
    );

    assert_eq!(cues.len(), 1);
    assert_eq!(cues[0].1.end_cs, 11_500);
    assert!(cues[0].1.text.starts_with("只有"));
}

#[test]
fn same_chunk_cues_are_never_merged() {
    let mut cues = vec![(
        2,
        SubtitleCue { index: 1, start_cs: 0, end_cs: 100, text: "again".to_string() },
    )];
    append_boundary_cues(
        &mut cues,
        vec![SubtitleCue { index: 2, start_cs: 100, end_cs: 200, text: "again".to_string() }],
        2,
    );
    assert_eq!(cues.len(), 2);
    assert!(boundary_texts_match("hello", "hello"));
    assert!(!boundary_texts_match("abc", "abcd"));
}

#[test]
fn samples_convert_to_centiseconds() {
    assert_eq!(samples_to_centiseconds(16_000, 16_000), 100);
    assert_eq!(samples_to_centiseconds(24_000, 16_000), 150);
    assert_eq!(milliseconds_to_centiseconds(801), 81);
    assert_eq!(midpoint(30, 28), 29);
}

#[test]
fn segment_timestamps_are_clamped_to_chunk_boundaries() {
    assert_eq!(clamp_segment_to_chunk(2_900, 3_100, 3_000, 3_000), Some((5_900, 6_000)));
    assert_eq!(clamp_segment_to_chunk(3_000, 3_100, 3_000, 3_000), None);
    assert_eq!(clamp_segment_to_chunk(-100, 200, 3_000, 3_000), Some((3_000, 3_200)));
}

#[test]
fn token_timestamps_gain_chunk_offset_and_minimum_duration() {
    assert_eq!(clamp_token_to_chunk(10, 20, 3_000, 500), Some((3_010, 3_020)));
    assert_eq!(clamp_token_to_chunk(30, 30, 3_000, 500), Some((3_030, 3_031)));
    assert_eq!(clamp_token_to_chunk(500, 510, 3_000, 500), None);
}

#[test]
fn timed_token_integrity_preserves_latin_word_spacing() {
    assert_eq!(transcript_text_key(" Hello   world. "), "hello world");
    assert_eq!(transcript_text_key("Hello, world."), "hello world");
    assert_ne!(transcript_text_key("Hello world"), transcript_text_key("Helloworld"));
}

#[test]
fn word_timing_is_used_only_when_words_spell_the_segments() {
    let config = default_config_for("/r".into(), "/s".into()).transcribe;
    let policy = cue_policy(&config);
    let segments = vec![SubtitleCue { index: 1, start_cs: 0, end_cs: 200, text: "Hello world.".into() }];
    let words = vec![
        TimedWord { start_cs: 0, end_cs: 80, text: " Hello".into() },
        TimedWord { start_cs: 90, end_cs: 190, text: " world.".into() },
    ];
    let (cues, timing) = select_cue_timing(segments.clone(), &words, policy, 50);
    assert_eq!(timing, "word");
    assert_eq!(cues[0].text, "Hello world.");
    let other = vec![TimedWord { start_cs: 0, end_cs: 80, text: " Goodbye".into() }];
    let (cues, timing) = select_cue_timing(segments.clone(), &other, policy, 50);
    assert_eq!(timing, "segment-fallback");
    assert_eq!(cues, segments);
    let (cues, timing) = select_cue_timing(segments.clone(), &[], policy, 50);
    assert_eq!(timing, "segment-fallback");
    assert_eq!(cues, segments);
}

#[test]
fn transcript_defaults_to_an_srt_beside_the_input() {
    assert_eq!(lilaccaps::transcribe::default_output_path("/media/talk.final.mp4"), "/media/talk.final.srt");
    assert_eq!(lilaccaps::transcribe::default_output_path("clip.wav"), "clip.srt");
}

#[test]
fn requested_language_is_lowercased_as_a_whole_text() {
    assert_eq!(requested_language(Some("ΑΣ"), None).as_deref(), Some("ας"));
}

#[test]
fn each_cue_has_exactly_one_owning_chunk() {
    let chunks = fixed_windows(75, 1, 30, 2);
    for (start, end) in [(0, 100), (2850, 2950), (2700, 3100), (5500, 5700), (7000, 7500)] {
        let cue = SubtitleCue { index: 1, start_cs: start, end_cs: end, text: "x".into() };
        let owners: Vec<usize> =
            (0..chunks.len()).filter(|&k| cue_belongs_to_chunk(&cue, k, &chunks, 1)).collect();
        assert_eq!(owners.len(), 1, "cue {start}..{end}");
    }
    let cue = SubtitleCue { index: 1, start_cs: 2850, end_cs: 2950, text: "x".into() };
    assert!(cue_belongs_to_chunk(&cue, 1, &chunks, 1));
    assert!(!cue_belongs_to_chunk(&cue, 0, &chunks, 1));
}
