use lilaccaps::subtitles::{
    build_cues_from_timed_words, format_timestamp, optimize_cues, parse_srt, parse_timestamp,
    render_srt, validate_cues, CuePolicy, SrtCue, SubtitleCue, TimedWord,
};

fn cue_policy() -> CuePolicy {
    CuePolicy {
        min_duration_cs: 80,
        max_duration_cs: 600,
        end_padding_cs: 15,
        max_chars_per_line: 42,
        max_cjk_chars_per_line: 18,
        max_lines: 2,
    }
}

#[test]
fn formats_srt_timestamp() {
    assert_eq!(format_timestamp(1239), "00:00:01,239");
}

#[test]
fn renders_srt_content() {
    let content = render_srt(&[SrtCue {
        index: 1,
        start_ms: 0,
        end_ms: 1230,
        text: "hello".to_string(),
    }]);
    assert!(content.contains("00:00:00,000 --> 00:00:01,230"));
    assert!(content.contains("hello"));
}

#[test]
fn rendering_removes_blank_lines_inside_cues() {
    let content = render_srt(&[SrtCue {
        index: 1,
        start_ms: 0,
        end_ms: 1000,
        text: " first line \n\n  \n second line ".to_string(),
    }]);
    assert!(content.contains("first line\nsecond line\n\n"));
    assert!(!content.contains("first line\n\nsecond line"));
}

#[test]
fn parses_srt_content() {
    let cues =
        parse_srt("1\n00:00:00,000 --> 00:00:01,230\nhello\n").expect("srt should parse");
    assert_eq!(cues.len(), 1);
    assert_eq!(cues[0].text, "hello");
    assert_eq!(cues[0].end_ms, 1230);
}

#[test]
fn rewriting_srt_text_preserves_millisecond_timing_and_indexes() {
    let source = "7\n00:00:01,231 --> 00:00:01,239\nsource\n\n8\n00:00:01,241 --> 00:00:02,987\nsource\n\n";
    let mut cues = parse_srt(source).expect("SRT should parse");
    for cue in &mut cues {
        cue.text = "translated".to_string();
    }

    assert_eq!(render_srt(&cues), source.replace("source", "translated"));
}

#[test]
fn parses_crlf_bom_and_flexible_arrow_spacing() {
    let cues = parse_srt(
        "\u{feff}1\r\n00:00:00,000-->00:00:01,230\r\nhello\r\n\r\n2\r\n00:00:01.230 --> 00:00:02.000\r\nworld\r\n",
    )
    .expect("common SRT variants should parse");
    assert_eq!(cues.len(), 2);
    assert_eq!(cues[0].text, "hello");
    assert_eq!(cues[1].start_ms, 1230);
}

#[test]
fn parses_multiple_and_whitespace_only_blank_lines() {
    let cues = parse_srt(
        "1\n00:00:00,000 --> 00:00:01,000\nhello\n\n \n\n2\n00:00:01,000 --> 00:00:02,000\nworld\n",
    )
    .expect("extra blank lines should parse");
    assert_eq!(cues.len(), 2);
    assert_eq!(cues[1].text, "world");
}

#[test]
fn rejects_reversed_cue_timing() {
    let error = parse_srt("1\n00:00:02,000 --> 00:00:01,000\nhello\n")
        .expect_err("reversed cue should be rejected");
    assert!(error.to_string().contains("ends before it starts"));
}

#[test]
fn parses_timestamp() {
    assert_eq!(
        parse_timestamp("00:00:01,230").expect("timestamp should parse"),
        1230
    );
}

#[test]
fn rejects_timestamp_overflow() {
    assert!(parse_timestamp("9223372036854775807:00:00,000").is_err());
}

#[test]
fn optimizer_normalizes_timing_and_indexes() {
    let optimized = optimize_cues(
        vec![
            SubtitleCue {
                index: 9,
                start_cs: 200,
                end_cs: 210,
                text: " second ".to_string(),
            },
            SubtitleCue {
                index: 4,
                start_cs: -20,
                end_cs: 40,
                text: "first".to_string(),
            },
        ],
        1_000,
        cue_policy(),
    );

    assert_eq!(optimized.len(), 2);
    assert_eq!(optimized[0].index, 1);
    assert_eq!(optimized[0].start_cs, 0);
    assert_eq!(optimized[0].end_cs, 80);
    assert_eq!(optimized[1].index, 2);
    assert_eq!(optimized[1].start_cs, 200);
    assert_eq!(optimized[1].end_cs, 280);
    assert_eq!(optimized[1].text, "second");
}

#[test]
fn timed_words_split_cjk_at_punctuation() {
    let words = vec![
        TimedWord {
            start_cs: 10,
            end_cs: 80,
            text: "现在进入第二段，".to_string(),
        },
        TimedWord {
            start_cs: 80,
            end_cs: 160,
            text: "这是后半句。".to_string(),
        },
        TimedWord {
            start_cs: 220,
            end_cs: 300,
            text: "新的一句。".to_string(),
        },
    ];

    let cues = build_cues_from_timed_words(&words, cue_policy(), 50);

    assert_eq!(cues.len(), 2);
    assert_eq!(cues[0].text, "现在进入第二段，这是后半句。");
    assert_eq!(cues[0].start_cs, 10);
    assert_eq!(cues[0].end_cs, 160);
    assert_eq!(cues[1].start_cs, 220);
}

#[test]
fn timed_words_preserve_latin_spacing_and_split_on_pause() {
    let words = vec![
        TimedWord {
            start_cs: 0,
            end_cs: 50,
            text: " Hello".to_string(),
        },
        TimedWord {
            start_cs: 50,
            end_cs: 100,
            text: " world".to_string(),
        },
        TimedWord {
            start_cs: 180,
            end_cs: 240,
            text: " again".to_string(),
        },
    ];

    let cues = build_cues_from_timed_words(&words, cue_policy(), 50);

    assert_eq!(cues.len(), 2);
    assert_eq!(cues[0].text, "Hello world");
    assert_eq!(cues[1].text, "again");
}

#[test]
fn timed_words_respect_cjk_character_limit_without_orphaning_punctuation() {
    let words = (0..5)
        .map(|index| TimedWord {
            start_cs: index * 100,
            end_cs: index * 100 + 100,
            text: if index == 4 {
                "十三十四。".to_string()
            } else {
                "一二三四".to_string()
            },
        })
        .collect::<Vec<_>>();

    let cues = build_cues_from_timed_words(&words, cue_policy(), 50);

    assert!(cues.len() >= 2);
    assert!(cues.iter().all(|cue| cue.text.chars().count() <= 18));
    assert!(cues.iter().all(|cue| !cue.text.starts_with('。')));
}

#[test]
fn timed_words_keep_standalone_punctuation_with_preceding_text() {
    let words = vec![
        TimedWord {
            start_cs: 0,
            end_cs: 200,
            text: "一二三四五六七八九十一二三四五六".to_string(),
        },
        TimedWord {
            start_cs: 200,
            end_cs: 250,
            text: "七八".to_string(),
        },
        TimedWord {
            start_cs: 250,
            end_cs: 251,
            text: "。".to_string(),
        },
    ];

    let cues = build_cues_from_timed_words(&words, cue_policy(), 50);

    assert_eq!(cues.len(), 2);
    assert_eq!(cues[0].text.chars().count(), 16);
    assert_eq!(cues[1].text, "七八。");
    assert!(cues.iter().all(|cue| !cue.text.starts_with('。')));
}

#[test]
fn optimizer_caps_long_cues_and_prevents_overlaps() {
    let optimized = optimize_cues(
        vec![
            SubtitleCue {
                index: 1,
                start_cs: 100,
                end_cs: 1_000,
                text: "first".to_string(),
            },
            SubtitleCue {
                index: 2,
                start_cs: 450,
                end_cs: 500,
                text: "second".to_string(),
            },
        ],
        1_200,
        cue_policy(),
    );

    assert_eq!(optimized[0].end_cs, 450);
    assert_eq!(optimized[1].end_cs, 530);
    validate_cues(&optimized, cue_policy()).expect("optimized cues should pass QA");
}

#[test]
fn optimizer_removes_blank_and_out_of_range_cues() {
    let optimized = optimize_cues(
        vec![
            SubtitleCue {
                index: 1,
                start_cs: 0,
                end_cs: 100,
                text: "  ".to_string(),
            },
            SubtitleCue {
                index: 2,
                start_cs: 1_000,
                end_cs: 1_100,
                text: "past the end".to_string(),
            },
        ],
        500,
        cue_policy(),
    );
    assert!(optimized.is_empty());
}

#[test]
fn optimizer_splits_long_cjk_segments_across_their_full_duration() {
    let text = "短暂停顿应该被合并因为自然说话时经常需要换气或者思考但是比较长的安静区域不应该交给识别模型以免浪费时间或者产生不存在的文字";
    let optimized = optimize_cues(
        vec![SubtitleCue {
            index: 1,
            start_cs: 100,
            end_cs: 2_200,
            text: text.to_string(),
        }],
        3_000,
        cue_policy(),
    );

    assert!(optimized.len() >= 4);
    assert_eq!(optimized.first().expect("first cue").start_cs, 100);
    assert_eq!(optimized.last().expect("last cue").end_cs, 2_215);
    assert!(
        optimized
            .iter()
            .all(|cue| cue.end_cs.saturating_sub(cue.start_cs) <= 600)
    );
    assert!(optimized.iter().all(|cue| cue.text.lines().count() == 1));
    assert!(
        optimized
            .iter()
            .all(|cue| { cue.text.lines().all(|line| line.chars().count() <= 18) })
    );
    let reconstructed = optimized
        .iter()
        .flat_map(|cue| cue.text.chars())
        .filter(|character| *character != '\n')
        .collect::<String>();
    assert_eq!(reconstructed, text);
    validate_cues(&optimized, cue_policy()).expect("split cues should pass QA");
}

#[test]
fn optimizer_preserves_long_duration_when_text_is_too_short_to_split_safely() {
    let optimized = optimize_cues(
        vec![SubtitleCue {
            index: 1,
            start_cs: 0,
            end_cs: 2_000,
            text: "hello".to_string(),
        }],
        3_000,
        cue_policy(),
    );

    assert_eq!(optimized.len(), 1);
    assert_eq!(optimized[0].end_cs, 2_015);
    let report =
        validate_cues(&optimized, cue_policy()).expect("long cue is structurally valid");
    assert!(
        report
            .warnings
            .iter()
            .any(|warning| warning.contains("above"))
    );
}

#[test]
fn optimizer_preserves_all_text_when_timing_is_too_short_to_split() {
    let text =
        "一二三四五六七八九十一二三四五六七八九十一二三四五六七八九十一二三四五六七八九十";
    for media_duration_cs in [1, 1000] {
        let optimized = optimize_cues(
            vec![SubtitleCue {
                index: 1,
                start_cs: 0,
                end_cs: 1,
                text: text.to_string(),
            }],
            media_duration_cs,
            cue_policy(),
        );

        assert_eq!(optimized.len(), 1);
        assert_eq!(optimized[0].text, text);
        assert_eq!(optimized[0].start_cs, 0);
        assert_eq!(optimized[0].end_cs, media_duration_cs.min(80));
        let report = validate_cues(&optimized, cue_policy())
            .expect("the complete short cue should remain structurally valid");
        assert!(
            report
                .warnings
                .iter()
                .any(|warning| warning.contains("character"))
        );
    }
}

#[test]
fn optimizer_does_not_start_a_wrapped_line_with_punctuation() {
    let optimized = optimize_cues(
        vec![SubtitleCue {
            index: 1,
            start_cs: 0,
            end_cs: 400,
            text: "一二三四五六七八九十一二三四五六七八。".to_string(),
        }],
        500,
        cue_policy(),
    );

    assert!(optimized.iter().all(|cue| !cue.text.starts_with('。')));
    assert!(optimized.iter().all(|cue| cue.text.chars().count() <= 18));
}

#[test]
fn qa_rejects_overlaps_and_warns_about_readability() {
    let cues = vec![
        SubtitleCue {
            index: 1,
            start_cs: 0,
            end_cs: 100,
            text: "this line is deliberately much longer than forty two characters".to_string(),
        },
        SubtitleCue {
            index: 2,
            start_cs: 90,
            end_cs: 180,
            text: "second".to_string(),
        },
    ];
    let error = validate_cues(&cues, cue_policy()).expect_err("overlap should fail QA");
    assert!(error.to_string().contains("overlaps"));

    let non_overlapping = vec![cues[0].clone()];
    let report = validate_cues(&non_overlapping, cue_policy()).expect("cue should be valid");
    assert_eq!(report.warnings.len(), 1);
    assert!(report.warnings[0].contains("character"));
}

#[test]
fn qa_warns_when_spacing_forces_a_short_cue() {
    let cues = vec![SubtitleCue {
        index: 1,
        start_cs: 100,
        end_cs: 125,
        text: "short".to_string(),
    }];

    let report =
        validate_cues(&cues, cue_policy()).expect("short cue remains structurally valid");
    assert_eq!(report.warnings.len(), 1);
    assert!(report.warnings[0].contains("below"));
}

#[test]
fn timestamps_read_back_as_written() {
    for millis in [0i64, 1, 999, 1_000, 59_999, 60_000, 3_599_999, 3_600_000, 86_399_999, 360_000_000_123] {
        assert_eq!(parse_timestamp(&format_timestamp(millis)).unwrap(), millis);
    }
    assert_eq!(format_timestamp(360_000_000_123), "100000:00:00,123");
}

#[test]
fn rendered_documents_parse_back_with_normalised_text() {
    let cues = vec![
        SrtCue { index: 3, start_ms: 0, end_ms: 0, text: "  first  \n\n second ".into() },
        SrtCue { index: 3, start_ms: 5, end_ms: 3_600_000, text: "\u{3000}字幕\u{3000}".into() },
        SrtCue { index: 10, start_ms: 4_000_000, end_ms: 4_000_001, text: "one\ntwo\nthree".into() },
    ];
    let parsed = parse_srt(&render_srt(&cues)).unwrap();
    assert_eq!(
        parsed,
        vec![
            SrtCue { index: 3, start_ms: 0, end_ms: 0, text: "first\nsecond".into() },
            SrtCue { index: 3, start_ms: 5, end_ms: 3_600_000, text: "字幕".into() },
            SrtCue { index: 10, start_ms: 4_000_000, end_ms: 4_000_001, text: "one\ntwo\nthree".into() },
        ]
    );
}

#[test]
fn white_space_is_what_std_says() {
    for code in 0u32..=0x10FFFF {
        if let Some(c) = char::from_u32(code) {
            let trimmed = lilaccaps::text::trim_chars(&[c]);
            assert_eq!(trimmed.is_empty(), c.is_whitespace(), "U+{code:04X}");
        }
    }
}

#[test]
fn optimized_cues_are_never_blank_and_pass_qa() {
    let cues = vec![
        SubtitleCue { index: 9, start_cs: 500, end_cs: 400, text: "  \n late and reversed \n".into() },
        SubtitleCue { index: 3, start_cs: 0, end_cs: 300, text: "   ".into() },
        SubtitleCue { index: 4, start_cs: 100, end_cs: 2000, text: "a rather long line of speech that needs to be split into readable parts for viewers".into() },
        SubtitleCue { index: 5, start_cs: 150, end_cs: 260, text: "overlapping".into() },
    ];
    let optimized = optimize_cues(cues, 2500, cue_policy());
    assert!(!optimized.is_empty());
    assert!(optimized.iter().all(|c| !c.text.trim().is_empty()));
    validate_cues(&optimized, cue_policy()).expect("optimized cues pass QA");
    let error = validate_cues(&[], cue_policy()).unwrap_err();
    assert_eq!(error, "subtitle QA failed: no cues were generated");
}
