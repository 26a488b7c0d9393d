//! The items of the faster-whisper helper's output that are kept.
use vstd::prelude::*;

use crate::subtitles::{SubtitleCue, TimedWord};
use crate::text::{chars_of, string_of, trim, trim_chars};

verus! {

broadcast use vstd::string::group_string_axioms;

/// A transcription by the faster-whisper helper.
#[derive(Debug, Clone)]
pub struct FasterWhisperOutput {
    pub language: String,
    pub duration_cs: i64,
    pub duration_after_vad_cs: i64,
    pub segments: Vec<SubtitleCue>,
    pub words: Vec<TimedWord>,
}

/// A helper word is kept when it has text and ends after it starts.
pub fn timed_word(text: String, start_cs: i64, end_cs: i64) -> (r: Option<TimedWord>)
    ensures
        (end_cs > start_cs && text@.len() > 0) <==> r is Some,
        r matches Some(w) ==> w.text@ == text@ && w.start_cs == start_cs && w.end_cs == end_cs,
{
    if end_cs > start_cs && chars_of(text.as_str()).len() > 0 {
        Some(TimedWord { start_cs, end_cs, text })
    } else {
        None
    }
}

/// A helper segment becomes cue `index` when its trimmed text is not empty and it
/// ends after it starts.
pub fn subtitle_cue(index: usize, text: &str, start_cs: i64, end_cs: i64) -> (r: Option<SubtitleCue>)
    ensures
        (end_cs > start_cs && trim(text@).len() > 0) <==> r is Some,
        r matches Some(c) ==> c.index == index && c.text@ == trim(text@) && c.start_cs == start_cs && c.end_cs
            == end_cs,
{
    let t = trim_chars(&chars_of(text));
    if end_cs > start_cs && t.len() > 0 {
        Some(SubtitleCue { index, start_cs, end_cs, text: string_of(&t) })
    } else {
        None
    }
}

} // verus!
