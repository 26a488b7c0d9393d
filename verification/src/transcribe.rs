//! The decisions of the transcription pipeline: which decoding attempts to make,
//! which command-line overrides apply, how chunk timestamps map onto the media, and
//! how cues that two overlapping chunks both heard are merged.
use vstd::prelude::*;

use std::ops::Range;

use crate::config::{
    faster_whisper_model, transcribe_config_error, validate_transcribe_config, whisper_rs_model,
    TranscribeConfig, TranscribeEngine,
};
use crate::cue_layout::{clamp_i64, saturating_add_i64};
use crate::cue_builder::{build_cues_from_timed_words, built_cues, concat_texts, word_models};
use crate::paths::{file_stem_of, path_with_file_name, with_file_name};
use crate::segmentation::{bounds, lemma_windows_ordered, split_size, split_step, split_windows};
use crate::subtitles::{cue_models, CueModel, CuePolicy, SubtitleCue, TimedWord};
use crate::text::{
    ascii_alnum, chars_of, contains_seq, contains_exec, extend_chars, is_alphanumeric,
    is_alphanumeric_char, is_ascii_alphanumeric, is_blank, is_white_space, is_whitespace,
    lowercase_of, str_eq, str_to_lowercase, text_lowercase, string_of, to_lowercase, trim, trim_chars,
    chars_eq,
};

verus! {

broadcast use vstd::string::group_string_axioms;

/// What a transcription run produced.
#[derive(Debug, Clone)]
pub struct TranscribeOutput {
    pub input: String,
    pub output: String,
    pub model_path: String,
    pub engine: String,
    pub model: String,
    pub language: String,
    pub fallback_language_used: bool,
    pub fallback_decoding_used: bool,
    pub decoding_strategy: String,
    pub cue_count: usize,
    pub qa_warning_count: usize,
    pub cue_timing: String,
    pub segmentation_strategy: String,
    pub window_count: usize,
    pub cleanup: String,
    pub status: String,
}

#[derive(Debug, Clone, Copy, PartialEq, Eq, Structural)]
pub enum DecodeStrategy {
    BeamSearch,
    Greedy,
}

impl DecodeStrategy {
    pub fn label(self) -> (r: &'static str)
        ensures
            r@ == (match self {
                DecodeStrategy::BeamSearch => "beam"@,
                DecodeStrategy::Greedy => "greedy"@,
            }),
    {
        match self {
            DecodeStrategy::BeamSearch => "beam",
            DecodeStrategy::Greedy => "greedy",
        }
    }
}

/// One decoding attempt: the language, whether it is the detected-language fallback,
/// and whether it is the greedy decoding fallback.
#[derive(Debug, Clone, PartialEq, Eq)]
pub struct AttemptPlan {
    pub language: String,
    pub fallback_language_used: bool,
    pub fallback_decoding_used: bool,
    pub strategy: DecodeStrategy,
}

pub type PlanModel = (Seq<char>, bool, bool, DecodeStrategy);

pub open spec fn plan_model(p: AttemptPlan) -> PlanModel {
    (p.language@, p.fallback_language_used, p.fallback_decoding_used, p.strategy)
}

pub open spec fn plan_models(ps: Seq<AttemptPlan>) -> Seq<PlanModel> {
    ps.map_values(|p: AttemptPlan| plan_model(p))
}

impl AttemptPlan {
    pub fn new(
        language: &str,
        fallback_language_used: bool,
        fallback_decoding_used: bool,
        strategy: DecodeStrategy,
    ) -> (r: Self)
        ensures
            plan_model(r) == (language@, fallback_language_used, fallback_decoding_used, strategy),
    {
        AttemptPlan {
            language: language.to_owned(),
            fallback_language_used,
            fallback_decoding_used,
            strategy,
        }
    }
}

/// Beam search, then greedy decoding, in `language`.
pub open spec fn both_strategies(language: Seq<char>, fallback_language: bool) -> Seq<PlanModel> {
    seq![
        (language, fallback_language, false, DecodeStrategy::BeamSearch),
        (language, fallback_language, true, DecodeStrategy::Greedy),
    ]
}

/// The attempts for a requested and a detected language: the requested one (else the
/// detected one) first, then the detected one as a fallback when it differs.
pub open spec fn attempts_for(requested: Option<Seq<char>>, detected: Option<Seq<char>>) -> Seq<
    PlanModel,
> {
    let primary = match requested {
        Some(r) => r,
        None => detected.unwrap(),
    };
    let base = both_strategies(primary, false);
    match (requested, detected) {
        (Some(r), Some(d)) => if d != r {
            base + both_strategies(d, true)
        } else {
            base
        },
        _ => base,
    }
}

pub fn build_attempts(requested_language: Option<&str>, detected_language: Option<&str>) -> (r: Vec<
    AttemptPlan,
>)
    requires
        requested_language.is_some() || detected_language.is_some(),
    ensures
        plan_models(r@) == attempts_for(
            crate::text::opt_str(requested_language),
            crate::text::opt_str(detected_language),
        ),
{
    let primary = match requested_language {
        Some(r) => r,
        None => detected_language.unwrap(),
    };
    let mut attempts = vec![
        AttemptPlan::new(primary, false, false, DecodeStrategy::BeamSearch),
        AttemptPlan::new(primary, false, true, DecodeStrategy::Greedy),
    ];
    if let (Some(requested), Some(detected)) = (requested_language, detected_language) {
        if !str_eq(detected, requested) {
            attempts.push(AttemptPlan::new(detected, true, false, DecodeStrategy::BeamSearch));
            attempts.push(AttemptPlan::new(detected, true, true, DecodeStrategy::Greedy));
        }
    }
    assert(plan_models(attempts@) =~= attempts_for(
        crate::text::opt_str(requested_language),
        crate::text::opt_str(detected_language),
    ));
    attempts
}

/// The attempts once only the detected language is left to try.
pub fn detected_language_attempts(detected_language: &str) -> (r: Vec<AttemptPlan>)
    ensures
        plan_models(r@) == both_strategies(detected_language@, true),
{
    let r = vec![
        AttemptPlan::new(detected_language, true, false, DecodeStrategy::BeamSearch),
        AttemptPlan::new(detected_language, true, true, DecodeStrategy::Greedy),
    ];
    assert(plan_models(r@) =~= both_strategies(detected_language@, true));
    r
}

// ---------------------------------------------------------------------------
// Command-line overrides.
// ---------------------------------------------------------------------------

/// The engine a command-line name selects.
pub open spec fn engine_named(name: Seq<char>) -> Option<TranscribeEngine> {
    let key = text_lowercase(trim(name));
    if key == "whisper-rs"@ || key == "whisper"@ {
        Some(TranscribeEngine::WhisperRs)
    } else if key == "faster-whisper"@ || key == "faster"@ {
        Some(TranscribeEngine::FasterWhisper)
    } else {
        None
    }
}

/// The model id after an engine override when no model or path is given: the engine's
/// default model replaces one the engine cannot load.
pub open spec fn defaulted_model(engine: TranscribeEngine, id: Seq<char>) -> Seq<char> {
    match engine {
        TranscribeEngine::WhisperRs => if whisper_rs_model(id) {
            id
        } else {
            "base"@
        },
        TranscribeEngine::FasterWhisper => if faster_whisper_model(id) {
            id
        } else {
            "large-v3-turbo"@
        },
    }
}

fn engine_from_name(name: &str) -> (r: Option<TranscribeEngine>)
    ensures
        r == engine_named(name@),
{
    let trimmed = string_of(&trim_chars(&chars_of(name)));
    let key = str_to_lowercase(trimmed.as_str());
    if str_eq(&key, "whisper-rs") || str_eq(&key, "whisper") {
        Some(TranscribeEngine::WhisperRs)
    } else if str_eq(&key, "faster-whisper") || str_eq(&key, "faster") {
        Some(TranscribeEngine::FasterWhisper)
    } else {
        None
    }
}

/// Applies `--engine`, `--model` and `--cleanup` to the transcription settings and
/// validates the result.
pub fn apply_transcribe_overrides(
    config: &mut TranscribeConfig,
    engine: Option<String>,
    model: Option<String>,
    cleanup: Option<String>,
) -> (r: Result<(), String>)
    ensures
        match engine {
            Some(e) => engine_named(e@) is None ==> (r matches Err(msg) && msg@
                == "unsupported transcription engine `"@ + e@
                + "`; use whisper-rs or faster-whisper"@ && *final(config) == *old(config)),
            None => true,
        },
        (match engine {
            Some(e) => engine_named(e@) is Some,
            None => true,
        }) ==> ({
            let chosen = match engine {
                Some(e) => engine_named(e@).unwrap(),
                None => old(config).engine,
            };
            &&& final(config).engine == chosen
            &&& final(config).model.id@ == (match model {
                Some(m) => m@,
                None => if old(config).model.path is None {
                    defaulted_model(chosen, old(config).model.id@)
                } else {
                    old(config).model.id@
                },
            })
            &&& final(config).model.path == (match model {
                Some(_) => None,
                None => old(config).model.path,
            })
            &&& final(config).cleanup.enabled == (old(config).cleanup.enabled || cleanup is Some)
            &&& final(config).cleanup.model@ == (match cleanup {
                Some(c) => if trim(c@).len() > 0 {
                    c@
                } else {
                    old(config).cleanup.model@
                },
                None => old(config).cleanup.model@,
            })
            &&& final(config).cleanup.command == old(config).cleanup.command
            &&& final(config).language == old(config).language
            &&& final(config).segmentation == old(config).segmentation
            &&& final(config).cues == old(config).cues
            &&& (r is Ok <==> transcribe_config_error(*final(config)) is None)
            &&& (r matches Err(msg) ==> transcribe_config_error(*final(config)) == Some(msg@))
        }),
{
    if let Some(name) = &engine {
        match engine_from_name(name.as_str()) {
            Some(e) => {
                config.engine = e;
            },
            None => {
                return Err(
                    crate::text::concat3(
                        "unsupported transcription engine `",
                        name.as_str(),
                        "`; use whisper-rs or faster-whisper",
                    ),
                );
            },
        }
    }
    if model.is_none() && config.model.path.is_none() {
        match config.engine {
            TranscribeEngine::WhisperRs => {
                if !crate::config::is_whisper_rs_model(config.model.id.as_str()) {
                    config.model.id = "base".to_owned();
                }
            },
            TranscribeEngine::FasterWhisper => {
                if !crate::config::is_faster_whisper_model(config.model.id.as_str()) {
                    config.model.id = "large-v3-turbo".to_owned();
                }
            },
        }
    }
    if let Some(m) = model {
        config.model.id = m;
        config.model.path = None;
    }
    if let Some(cleanup_model) = cleanup {
        config.cleanup.enabled = true;
        if !is_blank(&chars_of(cleanup_model.as_str())) {
            config.cleanup.model = cleanup_model;
        }
    }
    validate_transcribe_config(config)
}

/// The language to transcribe in: the command line's, else the settings', lower-cased;
/// `None` for automatic detection.
pub open spec fn requested_language_of(cli: Option<Seq<char>>, configured: Option<Seq<char>>) -> Option<
    Seq<char>,
> {
    let raw = match cli {
        Some(c) => c,
        None => match configured {
            Some(c) => c,
            None => "auto"@,
        },
    };
    let key = text_lowercase(trim(raw));
    if key.len() == 0 || key == "auto"@ {
        None
    } else {
        Some(key)
    }
}

pub fn requested_language(cli_lang: Option<&str>, config_lang: Option<&str>) -> (r: Option<String>)
    ensures
        match r {
            Some(s) => requested_language_of(
                crate::text::opt_str(cli_lang),
                crate::text::opt_str(config_lang),
            ) == Some(s@),
            None => requested_language_of(
                crate::text::opt_str(cli_lang),
                crate::text::opt_str(config_lang),
            ) is None,
        },
{
    let raw = match cli_lang {
        Some(c) => c,
        None => match config_lang {
            Some(c) => c,
            None => "auto",
        },
    };
    let trimmed = string_of(&trim_chars(&chars_of(raw)));
    let text = str_to_lowercase(trimmed.as_str());
    proof {
        reveal_strlit("");
    }
    if str_eq(&text, "") || str_eq(&text, "auto") {
        None
    } else {
        assert(text@.len() != 0) by {
            if text@.len() == 0 {
                assert(text@ =~= ""@);
            }
        }
        assert(trimmed@ == trim(match cli_lang {
            Some(c) => c@,
            None => match config_lang {
                Some(c) => c@,
                None => "auto"@,
            },
        }));
        Some(text)
    }
}

/// The error for a language Whisper does not know.
pub fn unsupported_language_error(language: &str) -> (r: String)
    ensures
        r@ == "unsupported transcription language `"@ + language@
            + "`; use `auto` or a Whisper language code such as `en`, `zh`, or `ja`"@,
{
    crate::text::concat3(
        "unsupported transcription language `",
        language,
        "`; use `auto` or a Whisper language code such as `en`, `zh`, or `ja`",
    )
}

// ---------------------------------------------------------------------------
// Time conversions.
// ---------------------------------------------------------------------------

/// Milliseconds rounded up to centiseconds, the rounding saturating at `u64::MAX`.
pub open spec fn centiseconds_of(milliseconds: u64) -> int {
    (if milliseconds > u64::MAX - 9 {
        u64::MAX as int
    } else {
        milliseconds + 9
    }) / 10
}

/// Milliseconds rounded up to centiseconds.
pub fn milliseconds_to_centiseconds(milliseconds: u64) -> (r: i64)
    ensures
        r == centiseconds_of(milliseconds),
{
    let padded: u64 = if milliseconds > u64::MAX - 9 {
        u64::MAX
    } else {
        milliseconds + 9
    };
    let centiseconds = padded / 10;
    centiseconds as i64
}

/// The position of a sample, in centiseconds (the saturated product, converted to
/// `i64` as `as` does).
pub fn samples_to_centiseconds(sample_count: usize, sample_rate: usize) -> (r: i64)
    ensures
        r == to_centiseconds(sample_count as int, sample_rate as int),
{
    let count = sample_count as u64;
    let scaled: u64 = if count > u64::MAX / 100 {
        u64::MAX
    } else {
        count * 100
    };
    let rate: u64 = if sample_rate < 1 {
        1
    } else {
        sample_rate as u64
    };
    let value = scaled / rate;
    value as i64
}

/// The cue policy of the cue settings, with durations in centiseconds.
pub fn cue_policy(config: &TranscribeConfig) -> (r: CuePolicy)
    ensures
        r.max_chars_per_line == config.cues.max_chars_per_line,
        r.max_cjk_chars_per_line == config.cues.max_cjk_chars_per_line,
        r.max_lines == config.cues.max_lines,
        r.min_duration_cs == centiseconds_of(config.cues.min_duration_ms),
        r.max_duration_cs == centiseconds_of(config.cues.max_duration_ms),
        r.end_padding_cs == centiseconds_of(config.cues.end_padding_ms),
{
    CuePolicy {
        min_duration_cs: milliseconds_to_centiseconds(config.cues.min_duration_ms),
        max_duration_cs: milliseconds_to_centiseconds(config.cues.max_duration_ms),
        end_padding_cs: milliseconds_to_centiseconds(config.cues.end_padding_ms),
        max_chars_per_line: config.cues.max_chars_per_line,
        max_cjk_chars_per_line: config.cues.max_cjk_chars_per_line,
        max_lines: config.cues.max_lines,
    }
}

// ---------------------------------------------------------------------------
// Chunks.
// ---------------------------------------------------------------------------

/// The point halfway between two positions, rounded down.
pub fn midpoint(left: usize, right: usize) -> (r: usize)
    ensures
        r == (if left < right {
            left + (right - left) / 2
        } else {
            right + (left - right) / 2
        }),
{
    if left < right {
        left + (right - left) / 2
    } else {
        right + (left - right) / 2
    }
}

/// The point halfway between two times, rounded toward the earlier one.
pub fn midpoint_i64(left: i64, right: i64) -> (r: i64)
    ensures
        r == (if left < right {
            left + (right - left) / 2
        } else {
            right + (left - right) / 2
        }),
{
    let low = if left < right {
        left
    } else {
        right
    };
    let high = if left < right {
        right
    } else {
        left
    };
    let gap = (high as i128 - low as i128) as u64;
    let half = gap / 2;
    assert(low + half <= high);
    let r = (low as i128 + half as i128) as i64;
    r
}

/// Chunk `i` owns the time from halfway through its overlap with the chunk before
/// to halfway through its overlap with the chunk after.
pub open spec fn ownership_samples(chunks: Seq<Range<usize>>, i: int) -> (int, int) {
    let lower = if i == 0 {
        chunks[i].start as int
    } else {
        mid(chunks[i - 1].end as int, chunks[i].start as int)
    };
    let upper = if i + 1 == chunks.len() {
        chunks[i].end as int
    } else {
        mid(chunks[i].end as int, chunks[i + 1].start as int)
    };
    (lower, upper)
}

pub open spec fn mid(a: int, b: int) -> int {
    if a < b {
        a + (b - a) / 2
    } else {
        b + (a - b) / 2
    }
}

pub open spec fn to_centiseconds(samples: int, rate: int) -> int {
    (((if samples * 100 > u64::MAX {
        u64::MAX as int
    } else {
        samples * 100
    }) / (if rate < 1 {
        1
    } else {
        rate
    })) as u64) as i64 as int
}

pub open spec fn ownership_cs(chunks: Seq<Range<usize>>, i: int, rate: int) -> (int, int) {
    let (lower, upper) = ownership_samples(chunks, i);
    (to_centiseconds(lower, rate), to_centiseconds(upper, rate))
}

/// The span of media time a chunk owns, in centiseconds.
pub fn chunk_ownership_bounds(chunk_index: usize, chunks: &[Range<usize>], sample_rate: usize) -> (r: (
    i64,
    i64,
))
    requires
        chunk_index < chunks.len(),
    ensures
        (r.0 as int, r.1 as int) == ownership_cs(chunks@, chunk_index as int, sample_rate as int),
{
    let lower_sample = if chunk_index == 0 {
        chunks[chunk_index].start
    } else {
        midpoint(chunks[chunk_index - 1].end, chunks[chunk_index].start)
    };
    let upper_sample = if chunk_index + 1 == chunks.len() {
        chunks[chunk_index].end
    } else {
        midpoint(chunks[chunk_index].end, chunks[chunk_index + 1].start)
    };
    (samples_to_centiseconds(lower_sample, sample_rate), samples_to_centiseconds(upper_sample, sample_rate))
}

/// A cue belongs to the chunk that owns its midpoint; the last chunk also owns its end.
pub open spec fn belongs(start: int, end: int, chunks: Seq<Range<usize>>, i: int, rate: int) -> bool {
    let (lower, upper) = ownership_cs(chunks, i, rate);
    let m = mid(start, end);
    m >= lower && (i + 1 == chunks.len() || m < upper)
}

/// The upper bound a chunk owns is where the next chunk's begins.
proof fn lemma_bounds_meet(chunks: Seq<Range<usize>>, rate: int, i: int)
    requires
        0 <= i < chunks.len() - 1,
    ensures
        ownership_cs(chunks, i, rate).1 == ownership_cs(chunks, i + 1, rate).0,
{
}

/// From a chunk whose lower bound the midpoint has reached, a later chunk (or that one)
/// owns the cue.
proof fn lemma_owner_from(start: int, end: int, chunks: Seq<Range<usize>>, rate: int, k: int)
    requires
        0 <= k < chunks.len(),
        ownership_cs(chunks, k, rate).0 <= mid(start, end),
    ensures
        exists|i: int| k <= i < chunks.len() && #[trigger] belongs(start, end, chunks, i, rate),
    decreases chunks.len() - k,
{
    if k + 1 == chunks.len() {
        assert(belongs(start, end, chunks, k, rate));
    } else {
        lemma_bounds_meet(chunks, rate, k);
        if mid(start, end) < ownership_cs(chunks, k + 1, rate).0 {
            assert(belongs(start, end, chunks, k, rate));
        } else {
            lemma_owner_from(start, end, chunks, rate, k + 1);
            let i = choose|i: int| k + 1 <= i < chunks.len() && #[trigger] belongs(start, end, chunks, i, rate);
            assert(belongs(start, end, chunks, i, rate));
        }
    }
}

/// When the chunks' lower bounds never decrease, a cue whose midpoint is not before the
/// first chunk's bound belongs to exactly one chunk.
pub proof fn lemma_one_owner(start: int, end: int, chunks: Seq<Range<usize>>, rate: int)
    requires
        chunks.len() > 0,
        forall|i: int, j: int|
            0 <= i <= j < chunks.len() ==> #[trigger] ownership_cs(chunks, i, rate).0 <= #[trigger] ownership_cs(
                chunks,
                j,
                rate,
            ).0,
        mid(start, end) >= ownership_cs(chunks, 0, rate).0,
    ensures
        exists|i: int| 0 <= i < chunks.len() && #[trigger] belongs(start, end, chunks, i, rate),
        forall|i: int, j: int|
            0 <= i < chunks.len() && 0 <= j < chunks.len() && #[trigger] belongs(start, end, chunks, i, rate)
                && #[trigger] belongs(start, end, chunks, j, rate) ==> i == j,
{
    lemma_owner_from(start, end, chunks, rate, 0);
    assert forall|i: int, j: int|
        0 <= i < chunks.len() && 0 <= j < chunks.len() && #[trigger] belongs(start, end, chunks, i, rate)
            && #[trigger] belongs(start, end, chunks, j, rate) implies i == j by {
        if i < j {
            lemma_bounds_meet(chunks, rate, i);
            assert(ownership_cs(chunks, i + 1, rate).0 <= ownership_cs(chunks, j, rate).0);
        } else if j < i {
            lemma_bounds_meet(chunks, rate, j);
            assert(ownership_cs(chunks, j + 1, rate).0 <= ownership_cs(chunks, i, rate).0);
        }
    }
}

/// The lower sample bounds of the windows of a split never decrease.
proof fn lemma_lower_samples_ordered(chunks: Seq<Range<usize>>, n: int, window: int, overlap: int, i: int, j: int)
    requires
        bounds(chunks) == split_windows(0, n, window, overlap),
        0 <= overlap,
        0 <= i <= j < chunks.len(),
    ensures
        ownership_samples(chunks, i).0 <= ownership_samples(chunks, j).0,
        0 <= ownership_samples(chunks, j).0 <= n,
    decreases j - i,
{
    let size = split_size(window);
    let step = split_step(window, overlap);
    lemma_windows_ordered(0, n, size, step);
    let w = split_windows(0, n, window, overlap);
    assert(chunks.len() == w.len());
    assert(w[j] == (chunks[j].start as int, chunks[j].end as int));
    if j > 0 {
        assert(w[j - 1] == (chunks[j - 1].start as int, chunks[j - 1].end as int));
    }
    if i < j {
        lemma_lower_samples_ordered(chunks, n, window, overlap, i, j - 1);
        let a = ownership_samples(chunks, j - 1).0;
        let b = ownership_samples(chunks, j).0;
        if j - 1 == 0 {
            assert(w[0].0 == 0);
            assert(a == 0);
        } else {
            assert(w[j - 2] == (chunks[j - 2].start as int, chunks[j - 2].end as int));
            assert(w[j - 2].1 <= w[j - 1].1 && w[j - 1].0 < w[j].0);
        }
        assert(a <= b);
    }
}

/// For fixed windows over a recording short enough that its times in centiseconds fit,
/// every cue whose midpoint is not before the first window belongs to exactly one
/// window: the overlaps are shared out at their midpoints.
pub proof fn lemma_fixed_windows_one_owner(
    chunks: Seq<Range<usize>>,
    sample_count: int,
    sample_rate: int,
    window: int,
    overlap: int,
    start: int,
    end: int,
)
    requires
        bounds(chunks) == split_windows(0, sample_count, window, overlap),
        0 <= overlap,
        0 < sample_count <= usize::MAX,
        sample_count * 100 <= i64::MAX,
        0 < sample_rate,
        mid(start, end) >= ownership_cs(chunks, 0, sample_rate).0,
    ensures
        exists|i: int| 0 <= i < chunks.len() && #[trigger] belongs(start, end, chunks, i, sample_rate),
        forall|i: int, j: int|
            0 <= i < chunks.len() && 0 <= j < chunks.len() && #[trigger] belongs(start, end, chunks, i, sample_rate)
                && #[trigger] belongs(start, end, chunks, j, sample_rate) ==> i == j,
{
    lemma_windows_ordered(0, sample_count, split_size(window), split_step(window, overlap));
    assert(split_windows(0, sample_count, window, overlap).len() > 0);
    assert(bounds(chunks).len() == chunks.len());
    assert(chunks.len() > 0);
    assert forall|i: int, j: int|
        0 <= i <= j < chunks.len() implies #[trigger] ownership_cs(chunks, i, sample_rate).0
        <= #[trigger] ownership_cs(chunks, j, sample_rate).0 by {
        lemma_lower_samples_ordered(chunks, sample_count, window, overlap, i, j);
        lemma_lower_samples_ordered(chunks, sample_count, window, overlap, i, i);
        let a = ownership_samples(chunks, i).0;
        let b = ownership_samples(chunks, j).0;
        assert(a * 100 <= b * 100 <= i64::MAX) by (nonlinear_arith)
            requires
                0 <= a <= b <= sample_count,
                sample_count * 100 <= i64::MAX,
        ;
        vstd::arithmetic::div_mod::lemma_div_is_ordered(a * 100, b * 100, sample_rate);
        assert((b * 100) / sample_rate <= b * 100) by (nonlinear_arith)
            requires
                0 <= b,
                0 < sample_rate,
        ;
        assert(0 <= (a * 100) / sample_rate) by (nonlinear_arith)
            requires
                0 <= a,
                0 < sample_rate,
        ;
    }
    lemma_one_owner(start, end, chunks, sample_rate);
}

pub fn cue_belongs_to_chunk(
    cue: &SubtitleCue,
    chunk_index: usize,
    chunks: &[Range<usize>],
    sample_rate: usize,
) -> (r: bool)
    requires
        chunk_index < chunks.len(),
    ensures
        r == belongs(cue.start_cs as int, cue.end_cs as int, chunks@, chunk_index as int, sample_rate as int),
{
    let (lower_cs, upper_cs) = chunk_ownership_bounds(chunk_index, chunks, sample_rate);
    let midpoint_cs = midpoint_i64(cue.start_cs, cue.end_cs);
    midpoint_cs >= lower_cs && (chunk_index + 1 == chunks.len() || midpoint_cs < upper_cs)
}

/// Clips a cue to its chunk's span; reports whether it belongs there and keeps a
/// positive duration.
pub fn constrain_cue_to_chunk(
    cue: &mut SubtitleCue,
    chunk_index: usize,
    chunks: &[Range<usize>],
    sample_rate: usize,
) -> (r: bool)
    requires
        chunk_index < chunks.len(),
    ensures
        ({
            let (lower, upper) = ownership_cs(chunks@, chunk_index as int, sample_rate as int);
            let owned = belongs(
                old(cue).start_cs as int,
                old(cue).end_cs as int,
                chunks@,
                chunk_index as int,
                sample_rate as int,
            );
            &&& !owned ==> !r && *final(cue) == *old(cue)
            &&& owned ==> final(cue).start_cs == (if old(cue).start_cs < lower {
                lower
            } else {
                old(cue).start_cs as int
            }) && final(cue).end_cs == (if old(cue).end_cs > upper {
                upper
            } else {
                old(cue).end_cs as int
            }) && r == (final(cue).end_cs > final(cue).start_cs)
            &&& final(cue).index == old(cue).index
            &&& final(cue).text == old(cue).text
        }),
{
    if !cue_belongs_to_chunk(cue, chunk_index, chunks, sample_rate) {
        return false;
    }
    let (lower_cs, upper_cs) = chunk_ownership_bounds(chunk_index, chunks, sample_rate);
    if cue.start_cs < lower_cs {
        cue.start_cs = lower_cs;
    }
    if cue.end_cs > upper_cs {
        cue.end_cs = upper_cs;
    }
    cue.end_cs > cue.start_cs
}

// ---------------------------------------------------------------------------
// Timestamps inside a chunk.
// ---------------------------------------------------------------------------

pub open spec fn clamp_between_spec(v: int, lo: int, hi: int) -> int {
    if v < lo {
        lo
    } else if v > hi {
        hi
    } else {
        v
    }
}

/// A token's span moved by the chunk's offset, clamped into the chunk, and at least
/// one centisecond long where the chunk leaves room.
pub open spec fn token_span(start: int, end: int, offset: int, duration: int) -> Option<(int, int)> {
    let chunk_end = clamp_i64(offset + if duration < 0 {
        0
    } else {
        duration
    });
    let s = clamp_between_spec(clamp_i64(offset + start), offset, chunk_end);
    if s >= chunk_end {
        None
    } else {
        let e0 = clamp_between_spec(clamp_i64(offset + end), offset, chunk_end);
        let floor = if clamp_i64(s + 1) < chunk_end {
            clamp_i64(s + 1)
        } else {
            chunk_end
        };
        let e = if e0 < floor {
            floor
        } else {
            e0
        };
        if e > s {
            Some((s, e))
        } else {
            None
        }
    }
}

/// A segment's span moved by the chunk's offset and clamped into the chunk.
pub open spec fn segment_span(start: int, end: int, offset: int, duration: int) -> Option<(int, int)> {
    let chunk_end = clamp_i64(offset + if duration < 0 {
        0
    } else {
        duration
    });
    let s = clamp_between_spec(clamp_i64(offset + start), offset, chunk_end);
    let e = clamp_between_spec(clamp_i64(offset + end), offset, chunk_end);
    if e > s {
        Some((s, e))
    } else {
        None
    }
}

fn clamp_to_range(v: i64, lo: i64, hi: i64) -> (r: i64)
    requires
        lo <= hi,
    ensures
        r == clamp_between_spec(v as int, lo as int, hi as int),
{
    if v < lo {
        lo
    } else if v > hi {
        hi
    } else {
        v
    }
}

pub fn clamp_token_to_chunk(
    token_start_cs: i64,
    token_end_cs: i64,
    chunk_offset_cs: i64,
    chunk_duration_cs: i64,
) -> (r: Option<(i64, i64)>)
    ensures
        match r {
            Some((s, e)) => token_span(
                token_start_cs as int,
                token_end_cs as int,
                chunk_offset_cs as int,
                chunk_duration_cs as int,
            ) == Some((s as int, e as int)),
            None => token_span(
                token_start_cs as int,
                token_end_cs as int,
                chunk_offset_cs as int,
                chunk_duration_cs as int,
            ) is None,
        },
{
    let duration: i64 = if chunk_duration_cs < 0 {
        0
    } else {
        chunk_duration_cs
    };
    let chunk_end = saturating_add_i64(chunk_offset_cs, duration);
    let start = clamp_to_range(saturating_add_i64(chunk_offset_cs, token_start_cs), chunk_offset_cs, chunk_end);
    if start >= chunk_end {
        return None;
    }
    let raw_end = clamp_to_range(saturating_add_i64(chunk_offset_cs, token_end_cs), chunk_offset_cs, chunk_end);
    let next = saturating_add_i64(start, 1);
    let floor = if next < chunk_end {
        next
    } else {
        chunk_end
    };
    let end = if raw_end < floor {
        floor
    } else {
        raw_end
    };
    if end > start {
        Some((start, end))
    } else {
        None
    }
}

pub fn clamp_segment_to_chunk(
    segment_start_cs: i64,
    segment_end_cs: i64,
    chunk_offset_cs: i64,
    chunk_duration_cs: i64,
) -> (r: Option<(i64, i64)>)
    ensures
        match r {
            Some((s, e)) => segment_span(
                segment_start_cs as int,
                segment_end_cs as int,
                chunk_offset_cs as int,
                chunk_duration_cs as int,
            ) == Some((s as int, e as int)),
            None => segment_span(
                segment_start_cs as int,
                segment_end_cs as int,
                chunk_offset_cs as int,
                chunk_duration_cs as int,
            ) is None,
        },
{
    let duration: i64 = if chunk_duration_cs < 0 {
        0
    } else {
        chunk_duration_cs
    };
    let chunk_end = saturating_add_i64(chunk_offset_cs, duration);
    let start = clamp_to_range(saturating_add_i64(chunk_offset_cs, segment_start_cs), chunk_offset_cs, chunk_end);
    let end = clamp_to_range(saturating_add_i64(chunk_offset_cs, segment_end_cs), chunk_offset_cs, chunk_end);
    if end > start {
        Some((start, end))
    } else {
        None
    }
}

// ---------------------------------------------------------------------------
// Text keys.
// ---------------------------------------------------------------------------

/// The lower-cased alphanumeric characters of a cue: what two chunks' renderings of
/// the same words share.
pub open spec fn boundary_key(s: Seq<char>) -> Seq<char>
    decreases s.len(),
{
    if s.len() == 0 {
        seq![]
    } else {
        boundary_key(s.drop_last()) + if is_alphanumeric_char(s.last()) {
            lowercase_of(s.last())
        } else {
            seq![]
        }
    }
}

pub fn boundary_text_key(text: &str) -> (r: String)
    ensures
        r@ == boundary_key(text@),
{
    let s = chars_of(text);
    let mut out: Vec<char> = Vec::new();
    let mut i: usize = 0;
    while i < s.len()
        invariant
            i <= s.len(),
            out@ == boundary_key(s@.subrange(0, i as int)),
        decreases s.len() - i,
    {
        if is_alphanumeric(s[i]) {
            extend_chars(&mut out, &to_lowercase(s[i]));
        }
        i += 1;
        proof {
            let next = s@.subrange(0, i as int);
            assert(next.drop_last() =~= s@.subrange(0, i - 1));
        }
    }
    assert(s@.subrange(0, s.len() as int) =~= s@);
    string_of(&out)
}

/// Two keys name the same text: equal, or one (of at least four characters)
/// contains the other.
pub open spec fn keys_match(previous: Seq<char>, current: Seq<char>) -> bool {
    previous == current || ((if previous.len() < current.len() {
        previous.len()
    } else {
        current.len()
    }) >= 4 && (contains_seq(previous, current) || contains_seq(current, previous)))
}

pub fn boundary_texts_match(previous: &str, current: &str) -> (r: bool)
    ensures
        r == keys_match(previous@, current@),
{
    let p = chars_of(previous);
    let c = chars_of(current);
    if chars_eq(&p, &c) {
        return true;
    }
    let shorter = if p.len() < c.len() {
        p.len()
    } else {
        c.len()
    };
    shorter >= 4 && (contains_exec(&p, &c) || contains_exec(&c, &p))
}

/// Words' key: lower-cased alphanumerics, with one space kept between two ASCII
/// alphanumerics that white space separated.
pub open spec fn transcript_key(s: Seq<char>) -> Seq<char> {
    key_from(s, 0, false, false)
}

pub open spec fn key_from(s: Seq<char>, i: int, pending_space: bool, previous_ascii: bool) -> Seq<char>
    decreases s.len() - i,
{
    if i >= s.len() || i < 0 {
        seq![]
    } else if is_white_space(s[i]) {
        key_from(s, i + 1, true, previous_ascii)
    } else if !is_alphanumeric_char(s[i]) {
        key_from(s, i + 1, pending_space, previous_ascii)
    } else {
        let ascii = ascii_alnum(s[i]);
        (if pending_space && previous_ascii && ascii {
            seq![' ']
        } else {
            seq![]
        }) + lowercase_of(s[i]) + key_from(s, i + 1, false, ascii)
    }
}

pub fn transcript_text_key(text: &str) -> (r: String)
    ensures
        r@ == transcript_key(text@),
{
    let s = chars_of(text);
    let mut key: Vec<char> = Vec::new();
    let mut pending_space = false;
    let mut previous_ascii = false;
    let mut i: usize = 0;
    while i < s.len()
        invariant
            i <= s.len(),
            key@ + key_from(s@, i as int, pending_space, previous_ascii) == transcript_key(s@),
        decreases s.len() - i,
    {
        let c = s[i];
        if is_whitespace(c) {
            pending_space = true;
        } else if is_alphanumeric(c) {
            let ascii = is_ascii_alphanumeric(c);
            let ghost before = key@;
            if pending_space && previous_ascii && ascii {
                key.push(' ');
            }
            extend_chars(&mut key, &to_lowercase(c));
            assert(key@ + key_from(s@, i + 1, false, ascii) =~= before + key_from(
                s@,
                i as int,
                pending_space,
                previous_ascii,
            ));
            pending_space = false;
            previous_ascii = ascii;
        }
        i += 1;
    }
    assert(key@ + Seq::<char>::empty() =~= key@);
    string_of(&key)
}

// ---------------------------------------------------------------------------
// Merging cues across chunk boundaries.
// ---------------------------------------------------------------------------

pub type TaggedCue = (int, crate::subtitles::CueModel);

pub open spec fn tagged_models(v: Seq<(usize, SubtitleCue)>) -> Seq<TaggedCue> {
    v.map_values(|t: (usize, SubtitleCue)| (t.0 as int, t.1@))
}

/// Whether `cue` from `chunk` repeats the last cue kept, which came from another chunk.
pub open spec fn repeats_last(kept: Seq<TaggedCue>, cue: crate::subtitles::CueModel, chunk: int) -> bool {
    kept.len() > 0 && kept.last().0 != chunk && boundary_key(cue.text).len() > 0 && keys_match(
        boundary_key(kept.last().1.text),
        boundary_key(cue.text),
    ) && cue.start <= clamp_i64(kept.last().1.end + 25)
}

/// The last kept cue widened to cover `cue`, keeping the longer text.
pub open spec fn widened(previous: crate::subtitles::CueModel, cue: crate::subtitles::CueModel) -> crate::subtitles::CueModel {
    crate::subtitles::CueModel {
        index: previous.index,
        start: if previous.start < cue.start {
            previous.start
        } else {
            cue.start
        },
        end: if previous.end > cue.end {
            previous.end
        } else {
            cue.end
        },
        text: if cue.text.len() > previous.text.len() {
            cue.text
        } else {
            previous.text
        },
    }
}

pub open spec fn appended_boundary(kept: Seq<TaggedCue>, source: Seq<crate::subtitles::CueModel>, chunk: int) -> Seq<
    TaggedCue,
>
    decreases source.len(),
{
    if source.len() == 0 {
        kept
    } else {
        let before = appended_boundary(kept, source.drop_last(), chunk);
        let cue = source.last();
        if repeats_last(before, cue, chunk) {
            before.update(before.len() - 1, (before.last().0, widened(before.last().1, cue)))
        } else {
            before.push((chunk, cue))
        }
    }
}

/// Appends a chunk's cues, merging each into the last kept cue when it repeats it
/// across the chunk boundary.
pub fn append_boundary_cues(target: &mut Vec<(usize, SubtitleCue)>, source: Vec<SubtitleCue>, chunk_index: usize)
    ensures
        tagged_models(final(target)@) == appended_boundary(
            tagged_models(old(target)@),
            crate::subtitles::cue_models(source@),
            chunk_index as int,
        ),
{
    let ghost start = tagged_models(target@);
    let ghost src = crate::subtitles::cue_models(source@);
    let mut i: usize = 0;
    while i < source.len()
        invariant
            i <= source.len(),
            src == crate::subtitles::cue_models(source@),
            tagged_models(target@) == appended_boundary(start, src.subrange(0, i as int), chunk_index as int),
        decreases source.len() - i,
    {
        let cue = &source[i];
        let ghost before = tagged_models(target@);
        proof {
            let prefix = src.subrange(0, i as int + 1);
            assert(prefix.drop_last() =~= src.subrange(0, i as int));
            assert(prefix.last() == cue@);
        }
        let cue_key = boundary_text_key(cue.text.as_str());
        let n = target.len();
        let mut merged = false;
        if n > 0 && target[n - 1].0 != chunk_index && chars_of(cue_key.as_str()).len() > 0 {
            let previous_key = boundary_text_key(target[n - 1].1.text.as_str());
            if boundary_texts_match(previous_key.as_str(), cue_key.as_str())
                && cue.start_cs <= saturating_add_i64(target[n - 1].1.end_cs, 25) {
                let previous = &target[n - 1].1;
                assert(before.last() == (target@[n - 1].0 as int, previous@));
                let longer = chars_of(cue.text.as_str()).len() > chars_of(previous.text.as_str()).len();
                let widened_cue = SubtitleCue {
                    index: previous.index,
                    start_cs: if previous.start_cs < cue.start_cs {
                        previous.start_cs
                    } else {
                        cue.start_cs
                    },
                    end_cs: if previous.end_cs > cue.end_cs {
                        previous.end_cs
                    } else {
                        cue.end_cs
                    },
                    text: if longer {
                        cue.text.clone()
                    } else {
                        previous.text.clone()
                    },
                };
                let tag = target[n - 1].0;
                assert(widened_cue@ == widened(previous@, cue@));
                target.set(n - 1, (tag, widened_cue));
                assert(tagged_models(target@) =~= before.update(
                    before.len() - 1,
                    (before.last().0, widened(before.last().1, cue@)),
                ));
                merged = true;
            }
        }
        if !merged {
            let copy = crate::subtitles::copy_subtitle_cue(cue);
            target.push((chunk_index, copy));
            assert(tagged_models(target@) =~= before.push((chunk_index as int, cue@)));
        }
        i += 1;
    }
    assert(src.subrange(0, source.len() as int) =~= src);
}

// ---------------------------------------------------------------------------
// Choosing the cue timing of one decoding.
// ---------------------------------------------------------------------------

/// The segment texts one after another.
pub open spec fn segment_text(cues: Seq<CueModel>) -> Seq<char>
    decreases cues.len(),
{
    if cues.len() == 0 {
        seq![]
    } else {
        segment_text(cues.drop_last()) + cues.last().text
    }
}

/// Word-timed cues are used when there are any and the words spell the same
/// transcript as the segments; otherwise the segments are the cues.
pub fn select_cue_timing(
    segment_cues: Vec<SubtitleCue>,
    timed_words: &[TimedWord],
    policy: CuePolicy,
    pause_split_cs: i64,
) -> (r: (Vec<SubtitleCue>, String))
    ensures
        ({
            let timed = built_cues(word_models(timed_words@), policy, pause_split_cs as int);
            let matches = transcript_key(concat_texts(word_models(timed_words@))) == transcript_key(
                segment_text(cue_models(segment_cues@)),
            );
            if timed.len() > 0 && matches {
                cue_models(r.0@) == timed && r.1@ == "word"@
            } else {
                r.0@ == segment_cues@ && r.1@ == "segment-fallback"@
            }
        }),
{
    let timed = build_cues_from_timed_words(timed_words, policy, pause_split_cs);
    let mut words: Vec<char> = Vec::new();
    let mut i: usize = 0;
    while i < timed_words.len()
        invariant
            i <= timed_words.len(),
            words@ == concat_texts(word_models(timed_words@).subrange(0, i as int)),
        decreases timed_words.len() - i,
    {
        extend_chars(&mut words, &chars_of(timed_words[i].text.as_str()));
        proof {
            let prefix = word_models(timed_words@).subrange(0, i as int + 1);
            assert(prefix.drop_last() =~= word_models(timed_words@).subrange(0, i as int));
            assert(prefix.last() == timed_words@[i as int]@);
        }
        i += 1;
    }
    assert(word_models(timed_words@).subrange(0, timed_words.len() as int) =~= word_models(timed_words@));
    let mut segments: Vec<char> = Vec::new();
    let mut k: usize = 0;
    while k < segment_cues.len()
        invariant
            k <= segment_cues.len(),
            segments@ == segment_text(cue_models(segment_cues@).subrange(0, k as int)),
        decreases segment_cues.len() - k,
    {
        extend_chars(&mut segments, &chars_of(segment_cues[k].text.as_str()));
        proof {
            let prefix = cue_models(segment_cues@).subrange(0, k as int + 1);
            assert(prefix.drop_last() =~= cue_models(segment_cues@).subrange(0, k as int));
            assert(prefix.last() == segment_cues@[k as int]@);
        }
        k += 1;
    }
    assert(cue_models(segment_cues@).subrange(0, segment_cues.len() as int) =~= cue_models(segment_cues@));
    let word_key = transcript_text_key(string_of(&words).as_str());
    let segment_key = transcript_text_key(string_of(&segments).as_str());
    if timed.len() > 0 && str_eq(word_key.as_str(), segment_key.as_str()) {
        (timed, string_of(&chars_of("word")))
    } else {
        (segment_cues, string_of(&chars_of("segment-fallback")))
    }
}

/// The default transcript file: beside the input, named after it, with `.srt`.
pub fn default_output_path(input: &str) -> (r: String)
    ensures
        r@ == path_with_file_name(input@, crate::captions::stem_or(input@, "transcript"@) + ".srt"@),
{
    let stem = match file_stem_of(input) {
        Some(s) => s,
        None => "transcript".to_owned(),
    };
    let name = crate::text::concat_str(stem.as_str(), ".srt");
    with_file_name(input, name.as_str())
}

} // verus!
