//! Grouping recognised words into cues: each cue ends at a natural boundary (strong or
//! soft punctuation, or a long pause) where one comes within its share of the text and
//! time, and never leaves a lone punctuation mark for the next cue.
use vstd::prelude::*;

use crate::cue_layout::{
    at_least_one, clamp_i64, clamp_usize, line_limit, saturating_add_i64, saturating_sub_i64,
};
use crate::subtitles::{contains_cjk, cue_models, CueModel, CuePolicy, SubtitleCue, TimedWord};
use crate::text::{
    chars_of, is_white_space, is_whitespace, string_of, trim, trim_chars, trim_end,
    trim_end_chars,
};

verus! {

broadcast use vstd::string::group_string_axioms;

/// The mathematical content of a timed word.
pub struct WordModel {
    pub start: int,
    pub end: int,
    pub text: Seq<char>,
}

impl View for TimedWord {
    type V = WordModel;

    open spec fn view(&self) -> WordModel {
        WordModel { start: self.start_cs as int, end: self.end_cs as int, text: self.text@ }
    }
}

pub open spec fn word_models(ws: Seq<TimedWord>) -> Seq<WordModel> {
    ws.map_values(|w: TimedWord| w@)
}

/// The words that have a positive duration and some text, in order.
pub open spec fn usable_words(ws: Seq<WordModel>) -> Seq<WordModel>
    decreases ws.len(),
{
    if ws.len() == 0 {
        seq![]
    } else if ws.last().end > ws.last().start && ws.last().text.len() > 0 {
        usable_words(ws.drop_last()).push(ws.last())
    } else {
        usable_words(ws.drop_last())
    }
}

/// The texts of `ws` run together.
pub open spec fn concat_texts(ws: Seq<WordModel>) -> Seq<char>
    decreases ws.len(),
{
    if ws.len() == 0 {
        seq![]
    } else {
        concat_texts(ws.drop_last()) + ws.last().text
    }
}

/// `cs` with each run of white space replaced by one space.
pub open spec fn collapse_white(cs: Seq<char>) -> Seq<char>
    decreases cs.len(),
{
    if cs.len() == 0 {
        seq![]
    } else {
        let init = cs.drop_last();
        let rest = collapse_white(init);
        if is_white_space(cs.last()) {
            if init.len() > 0 && is_white_space(init.last()) {
                rest
            } else {
                rest.push(' ')
            }
        } else {
            rest.push(cs.last())
        }
    }
}

/// The text of a run of words: their texts joined, white space collapsed, trimmed.
pub open spec fn joined(ws: Seq<WordModel>) -> Seq<char> {
    trim(collapse_white(concat_texts(ws)))
}

pub open spec fn strong_punctuation(c: char) -> bool {
    c == '。' || c == '！' || c == '？' || c == '；' || c == '.' || c == '!' || c == '?' || c == ';'
        || c == '…'
}

pub open spec fn soft_punctuation(c: char) -> bool {
    c == '，' || c == '、' || c == '：' || c == ',' || c == ':'
}

pub open spec fn ends_strong(cs: Seq<char>) -> bool {
    trim_end(cs).len() > 0 && strong_punctuation(trim_end(cs).last())
}

pub open spec fn ends_soft(cs: Seq<char>) -> bool {
    trim_end(cs).len() > 0 && soft_punctuation(trim_end(cs).last())
}

/// Text that, trimmed, is one or more punctuation marks and nothing else.
pub open spec fn punctuation_only(cs: Seq<char>) -> bool {
    let t = trim(cs);
    t.len() > 0 && forall|k: int|
        0 <= k < t.len() ==> strong_punctuation(#[trigger] t[k]) || soft_punctuation(t[k])
}

/// `n / d` rounded up, for `d` at least one, with the numerator saturated.
pub open spec fn ceil_div(n: int, d: int) -> int {
    clamp_i64(n + at_least_one(d) - 1) / at_least_one(d)
}

/// `a / b` rounded up.
pub open spec fn div_ceil(a: int, b: int) -> int {
    a / b + (if a % b == 0 {
        0int
    } else {
        1int
    })
}

/// The size a cue that starts at word `start` aims for.
pub struct Targets {
    pub limit: int,
    pub chars: int,
    pub duration: int,
}

pub open spec fn cue_targets(ws: Seq<WordModel>, policy: CuePolicy, start: int) -> Targets {
    let remaining = joined(ws.subrange(start, ws.len() as int));
    let limit = line_limit(policy, remaining);
    let chars = at_least_one(remaining.len() as int);
    let duration = at_least_one(clamp_i64(ws.last().end - ws[start].start));
    let by_duration = ceil_div(duration, at_least_one(policy.max_duration_cs as int));
    let parts_for_duration = clamp_usize(by_duration);
    let parts_for_text = div_ceil(chars, limit);
    let desired = at_least_one(
        if parts_for_text < parts_for_duration {
            parts_for_duration
        } else {
            parts_for_text
        },
    );
    let desired_i64 = at_least_one(
        if desired > i64::MAX {
            i64::MAX as int
        } else {
            desired
        },
    );
    let by_parts = ceil_div(duration, desired_i64);
    let min_duration = at_least_one(policy.min_duration_cs as int);
    Targets {
        limit,
        chars: at_least_one(div_ceil(chars, desired)),
        duration: if by_parts < min_duration {
            min_duration
        } else {
            by_parts
        },
    }
}

/// Where a scan for the end of a cue stopped, the last natural boundary it passed, and
/// whether it stopped on a punctuation mark that must not open the next cue.
pub struct Scan {
    pub end: int,
    pub preferred: Option<int>,
    pub rewind: bool,
}

/// Scans for the end of the cue that starts at word `start`, from word `end` on.
pub open spec fn scan(
    ws: Seq<WordModel>,
    policy: CuePolicy,
    pause_split: int,
    start: int,
    t: Targets,
    end: int,
    preferred: Option<int>,
) -> Scan
    decreases ws.len() - end,
{
    if end >= ws.len() || end < start || start < 0 {
        Scan { end, preferred, rewind: false }
    } else {
        let candidate = joined(ws.subrange(start, end + 1));
        let duration = clamp_i64(ws[end].end - ws[start].start);
        let exceeds_limit = candidate.len() > t.chars;
        let exceeds_duration = duration > t.duration;
        let punctuation = punctuation_only(ws[end].text);
        let exceeds_hard_limit = candidate.len() > t.limit;
        let exceeds_hard_duration = duration > at_least_one(policy.max_duration_cs as int);
        let next_pause = if end + 1 < ws.len() {
            clamp_i64(ws[end + 1].start - ws[end].end)
        } else {
            0
        };
        let natural = ends_strong(candidate) || ends_soft(candidate) || next_pause >= at_least_one(
            pause_split,
        );
        let usable = natural && !exceeds_hard_limit && !exceeds_hard_duration;
        if end >= clamp_usize(start + 2) && exceeds_hard_limit && punctuation {
            Scan { end, preferred, rewind: true }
        } else if end > start && (exceeds_limit || exceeds_duration) && !punctuation && !usable {
            Scan { end, preferred, rewind: false }
        } else if natural && duration >= at_least_one(policy.min_duration_cs as int) {
            Scan { end: end + 1, preferred: Some(end), rewind: false }
        } else {
            scan(
                ws,
                policy,
                pause_split,
                start,
                t,
                end + 1,
                if natural {
                    Some(end)
                } else {
                    preferred
                },
            )
        }
    }
}

/// The last word of the cue that starts at word `start`.
pub open spec fn cue_end(ws: Seq<WordModel>, policy: CuePolicy, pause_split: int, start: int) -> int {
    let s = scan(ws, policy, pause_split, start, cue_targets(ws, policy, start), start, None);
    let back = if s.rewind {
        s.end - 2
    } else {
        s.end - 1
    };
    let floor = if back < start {
        start
    } else {
        back
    };
    let hard_end = if floor > ws.len() - 1 {
        ws.len() - 1
    } else {
        floor
    };
    match s.preferred {
        Some(p) => if p <= hard_end {
            p
        } else {
            hard_end
        },
        None => hard_end,
    }
}

pub proof fn lemma_scan_preferred(
    ws: Seq<WordModel>,
    policy: CuePolicy,
    pause_split: int,
    start: int,
    t: Targets,
    end: int,
    preferred: Option<int>,
)
    requires
        preferred matches Some(p) ==> p >= start,
    ensures
        scan(ws, policy, pause_split, start, t, end, preferred).preferred matches Some(p) ==> p
            >= start,
    decreases ws.len() - end,
{
    if !(end >= ws.len() || end < start || start < 0) {
        let candidate = joined(ws.subrange(start, end + 1));
        let next_pause = if end + 1 < ws.len() {
            clamp_i64(ws[end + 1].start - ws[end].end)
        } else {
            0
        };
        let natural = ends_strong(candidate) || ends_soft(candidate) || next_pause >= at_least_one(
            pause_split,
        );
        lemma_scan_preferred(
            ws,
            policy,
            pause_split,
            start,
            t,
            end + 1,
            if natural {
                Some(end)
            } else {
                preferred
            },
        );
    }
}

pub proof fn lemma_cue_end_range(ws: Seq<WordModel>, policy: CuePolicy, pause_split: int, start: int)
    requires
        0 <= start < ws.len(),
    ensures
        start <= cue_end(ws, policy, pause_split, start) < ws.len(),
{
    lemma_scan_preferred(ws, policy, pause_split, start, cue_targets(ws, policy, start), start, None);
}

/// A sentence-ending mark: full stop, exclamation or question mark, semicolon (each also
/// in its full-width form) or ellipsis.
pub open spec fn sentence_mark(c: char) -> bool {
    c == '.' || c == '!' || c == '?' || c == ';' || c == '。' || c == '！' || c == '？' || c == '；'
        || c == '…'
}

/// The words from `start` to `k` read as a sentence ending in a sentence mark and last
/// at least the minimum cue duration.
pub open spec fn sentence_closes(ws: Seq<WordModel>, policy: CuePolicy, start: int, k: int) -> bool {
    let t = trim_end(joined(ws.subrange(start, k + 1)));
    &&& t.len() > 0
    &&& sentence_mark(t.last())
    &&& ws[k].end - ws[start].start >= at_least_one(policy.min_duration_cs as int)
}

proof fn lemma_scan_stops_at_sentence(
    ws: Seq<WordModel>,
    policy: CuePolicy,
    pause_split: int,
    start: int,
    t: Targets,
    end: int,
    preferred: Option<int>,
    k: int,
)
    requires
        0 <= start <= end <= k < ws.len(),
        sentence_closes(ws, policy, start, k),
    ensures
        ({
            let s = scan(ws, policy, pause_split, start, t, end, preferred);
            (if s.rewind {
                s.end - 2
            } else {
                s.end - 1
            }) <= k
        }),
    decreases k - end,
{
    let candidate = joined(ws.subrange(start, end + 1));
    let duration = clamp_i64(ws[end].end - ws[start].start);
    let next_pause = if end + 1 < ws.len() {
        clamp_i64(ws[end + 1].start - ws[end].end)
    } else {
        0
    };
    let natural = ends_strong(candidate) || ends_soft(candidate) || next_pause >= at_least_one(
        pause_split,
    );
    if end == k {
        assert(ends_strong(candidate));
        assert(duration >= at_least_one(policy.min_duration_cs as int));
    } else {
        lemma_scan_stops_at_sentence(ws, policy, pause_split, start, t, end + 1, if natural {
            Some(end)
        } else {
            preferred
        }, k);
    }
}

/// A cue never runs on past a word that ends a sentence: when the words from the cue's
/// first word `start` to word `k` end in a sentence mark ('.', '!', '?', ';', their
/// full-width forms, or '…') and last at least the minimum cue duration, the cue ends
/// at word `k` or before it.
pub proof fn lemma_cue_ends_at_sentence(ws: Seq<WordModel>, policy: CuePolicy, pause_split: int, start: int, k: int)
    requires
        0 <= start <= k < ws.len(),
        sentence_closes(ws, policy, start, k),
    ensures
        cue_end(ws, policy, pause_split, start) <= k,
{
    lemma_scan_stops_at_sentence(ws, policy, pause_split, start, cue_targets(ws, policy, start), start, None, k);
}

/// The cues for the words from `start` on, numbered after the `produced` before them.
pub open spec fn cues_from(
    ws: Seq<WordModel>,
    policy: CuePolicy,
    pause_split: int,
    start: int,
    produced: int,
) -> Seq<CueModel>
    decreases ws.len() - start,
{
    if start < 0 || start >= ws.len() {
        seq![]
    } else {
        let e = cue_end(ws, policy, pause_split, start);
        proof {
            lemma_cue_end_range(ws, policy, pause_split, start);
        }
        let text = joined(ws.subrange(start, e + 1));
        if text.len() > 0 {
            seq![CueModel { index: produced + 1, start: ws[start].start, end: ws[e].end, text }]
                + cues_from(ws, policy, pause_split, e + 1, produced + 1)
        } else {
            cues_from(ws, policy, pause_split, e + 1, produced)
        }
    }
}

/// The cues built from word `start` on are numbered on from `produced`, and none is blank.
pub proof fn lemma_cues_from_numbered(
    ws: Seq<WordModel>,
    policy: CuePolicy,
    pause_split: int,
    start: int,
    produced: int,
)
    ensures
        forall|i: int|
            0 <= i < cues_from(ws, policy, pause_split, start, produced).len() ==> (
            #[trigger] cues_from(ws, policy, pause_split, start, produced)[i]).index == produced + i
                + 1 && cues_from(ws, policy, pause_split, start, produced)[i].text.len() > 0,
    decreases ws.len() - start,
{
    if !(start < 0 || start >= ws.len()) {
        let e = cue_end(ws, policy, pause_split, start);
        lemma_cue_end_range(ws, policy, pause_split, start);
        let text = joined(ws.subrange(start, e + 1));
        if text.len() > 0 {
            lemma_cues_from_numbered(ws, policy, pause_split, e + 1, produced + 1);
            let head = seq![CueModel { index: produced + 1, start: ws[start].start, end: ws[e].end, text }];
            let rest = cues_from(ws, policy, pause_split, e + 1, produced + 1);
            let all = cues_from(ws, policy, pause_split, start, produced);
            assert(all == head + rest);
            assert forall|i: int| 0 <= i < all.len() implies (#[trigger] all[i]).index == produced
                + i + 1 && all[i].text.len() > 0 by {
                if i > 0 {
                    assert(all[i] == rest[i - 1]);
                }
            }
        } else {
            lemma_cues_from_numbered(ws, policy, pause_split, e + 1, produced);
            assert(cues_from(ws, policy, pause_split, start, produced) == cues_from(
                ws,
                policy,
                pause_split,
                e + 1,
                produced,
            ));
        }
    }
}

/// The cues that `build_cues_from_timed_words` produces from `words`.
pub open spec fn built_cues(words: Seq<WordModel>, policy: CuePolicy, pause_split: int) -> Seq<
    CueModel,
> {
    cues_from(usable_words(words), policy, pause_split, 0, 0)
}

/// The word ranges the cues are cut into from word `start` on: each from where the last
/// one ended up to its cue end.
pub open spec fn cue_ranges(ws: Seq<WordModel>, policy: CuePolicy, pause_split: int, start: int) -> Seq<(int, int)>
    decreases ws.len() - start,
{
    if start < 0 || start >= ws.len() {
        seq![]
    } else {
        let e = cue_end(ws, policy, pause_split, start);
        proof {
            lemma_cue_end_range(ws, policy, pause_split, start);
        }
        seq![(start, e + 1)] + cue_ranges(ws, policy, pause_split, e + 1)
    }
}

/// The cues for word ranges, numbered on from `produced`: one per range whose words
/// have text, from the first word's start to the last word's end.
pub open spec fn range_cues(ws: Seq<WordModel>, b: Seq<(int, int)>, produced: int) -> Seq<CueModel>
    decreases b.len(),
{
    if b.len() == 0 {
        seq![]
    } else {
        let (s, e) = b[0];
        let text = joined(ws.subrange(s, e));
        if text.len() > 0 {
            seq![CueModel { index: produced + 1, start: ws[s].start, end: ws[e - 1].end, text }]
                + range_cues(ws, b.drop_first(), produced + 1)
        } else {
            range_cues(ws, b.drop_first(), produced)
        }
    }
}

/// Ranges that follow each other without gap or overlap, each non-empty, from `start`
/// to `n`.
pub open spec fn tiles_from(b: Seq<(int, int)>, start: int, n: int) -> bool {
    &&& (b.len() == 0 <==> start >= n)
    &&& b.len() > 0 ==> b[0].0 == start && b.last().1 == n
    &&& forall|k: int| 0 <= k < b.len() - 1 ==> #[trigger] b[k].1 == b[k + 1].0
    &&& forall|k: int| 0 <= k < b.len() ==> #[trigger] b[k].0 < b[k].1
}

proof fn lemma_ranges_from(ws: Seq<WordModel>, policy: CuePolicy, pause_split: int, start: int, produced: int)
    requires
        0 <= start <= ws.len(),
    ensures
        tiles_from(cue_ranges(ws, policy, pause_split, start), start, ws.len() as int),
        cues_from(ws, policy, pause_split, start, produced) == range_cues(
            ws,
            cue_ranges(ws, policy, pause_split, start),
            produced,
        ),
    decreases ws.len() - start,
{
    if start < ws.len() {
        let e = cue_end(ws, policy, pause_split, start);
        lemma_cue_end_range(ws, policy, pause_split, start);
        lemma_ranges_from(ws, policy, pause_split, e + 1, produced);
        lemma_ranges_from(ws, policy, pause_split, e + 1, produced + 1);
        let rest = cue_ranges(ws, policy, pause_split, e + 1);
        let b = cue_ranges(ws, policy, pause_split, start);
        assert(b == seq![(start, e + 1)] + rest);
        assert(b.drop_first() =~= rest);
        assert(b[0] == (start, e + 1));
        assert forall|k: int| 0 <= k < b.len() - 1 implies #[trigger] b[k].1 == b[k + 1].0 by {
            if k > 0 {
                assert(b[k] == rest[k - 1]);
                assert(b[k + 1] == rest[k]);
            } else {
                assert(b[1] == rest[0]);
            }
        }
        assert forall|k: int| 0 <= k < b.len() implies #[trigger] b[k].0 < b[k].1 by {
            if k > 0 {
                assert(b[k] == rest[k - 1]);
            }
        }
        if rest.len() > 0 {
            assert(b.last() == rest.last());
        }
    }
}

proof fn lemma_ranges_end_cues(ws: Seq<WordModel>, policy: CuePolicy, pause_split: int, start: int)
    requires
        0 <= start <= ws.len(),
    ensures
        forall|i: int|
            0 <= i < cue_ranges(ws, policy, pause_split, start).len() ==> {
                let r = #[trigger] cue_ranges(ws, policy, pause_split, start)[i];
                &&& 0 <= r.0 < ws.len()
                &&& r.1 == cue_end(ws, policy, pause_split, r.0) + 1
            },
    decreases ws.len() - start,
{
    if start < ws.len() {
        let e = cue_end(ws, policy, pause_split, start);
        lemma_cue_end_range(ws, policy, pause_split, start);
        lemma_ranges_end_cues(ws, policy, pause_split, e + 1);
        let rest = cue_ranges(ws, policy, pause_split, e + 1);
        let b = cue_ranges(ws, policy, pause_split, start);
        assert(b == seq![(start, e + 1)] + rest);
        assert forall|i: int| 0 <= i < b.len() implies {
            let r = #[trigger] b[i];
            &&& 0 <= r.0 < ws.len()
            &&& r.1 == cue_end(ws, policy, pause_split, r.0) + 1
        } by {
            if i > 0 {
                assert(b[i] == rest[i - 1]);
            }
        }
    }
}

/// Built cues break at sentence ends: within the word range of a cue, no word before
/// its last closes a sentence (ends the words so far in '.', '!', '?', ';', their
/// full-width forms, or '…') once the cue has lasted its minimum duration.
pub proof fn lemma_built_cues_break_at_sentences(words: Seq<WordModel>, policy: CuePolicy, pause_split: int)
    ensures
        forall|i: int, k: int|
            0 <= i < cue_ranges(usable_words(words), policy, pause_split, 0).len()
                && #[trigger] cue_ranges(usable_words(words), policy, pause_split, 0)[i].0 <= k
                < cue_ranges(usable_words(words), policy, pause_split, 0)[i].1 - 1 ==> !#[trigger] sentence_closes(
                usable_words(words),
                policy,
                cue_ranges(usable_words(words), policy, pause_split, 0)[i].0,
                k,
            ),
{
    let ws = usable_words(words);
    let b = cue_ranges(ws, policy, pause_split, 0);
    lemma_ranges_end_cues(ws, policy, pause_split, 0);
    assert forall|i: int, k: int|
        0 <= i < b.len() && #[trigger] b[i].0 <= k < b[i].1 - 1 implies !#[trigger] sentence_closes(
        ws,
        policy,
        b[i].0,
        k,
    ) by {
        if sentence_closes(ws, policy, b[i].0, k) {
            lemma_cue_ends_at_sentence(ws, policy, pause_split, b[i].0, k);
        }
    }
}

/// Built cues partition the usable words in order: the words are cut into consecutive,
/// non-empty ranges covering all of them, and the cues are those ranges whose words
/// have text, numbered from one, each from its first word's start to its last word's
/// end with the words' joined text.
pub proof fn lemma_built_cues_partition(words: Seq<WordModel>, policy: CuePolicy, pause_split: int)
    ensures
        tiles_from(
            cue_ranges(usable_words(words), policy, pause_split, 0),
            0,
            usable_words(words).len() as int,
        ),
        built_cues(words, policy, pause_split) == range_cues(
            usable_words(words),
            cue_ranges(usable_words(words), policy, pause_split, 0),
            0,
        ),
{
    lemma_ranges_from(usable_words(words), policy, pause_split, 0, 0);
}

// ---------------------------------------------------------------------------
// Executable parts.
// ---------------------------------------------------------------------------

fn copy_word(w: &TimedWord) -> (r: TimedWord)
    ensures
        r@ == w@,
{
    TimedWord { start_cs: w.start_cs, end_cs: w.end_cs, text: w.text.clone() }
}

fn usable_words_of(words: &[TimedWord]) -> (r: Vec<TimedWord>)
    ensures
        word_models(r@) == usable_words(word_models(words@)),
{
    let ghost input = word_models(words@);
    let mut out: Vec<TimedWord> = Vec::new();
    let mut i: usize = 0;
    while i < words.len()
        invariant
            i <= words.len(),
            input == word_models(words@),
            word_models(out@) == usable_words(input.subrange(0, i as int)),
        decreases words.len() - i,
    {
        let w = &words[i];
        let text = chars_of(w.text.as_str());
        proof {
            let prefix = input.subrange(0, i as int + 1);
            assert(prefix.drop_last() =~= input.subrange(0, i as int));
            assert(prefix.last() == w@);
        }
        let ghost before = word_models(out@);
        if w.end_cs > w.start_cs && text.len() > 0 {
            let c = copy_word(w);
            out.push(c);
            assert(word_models(out@) =~= before.push(c@));
        }
        i += 1;
    }
    assert(input.subrange(0, words.len() as int) =~= input);
    out
}

/// The joined text of `words[lo..hi]`.
fn join_timed_words(words: &Vec<TimedWord>, lo: usize, hi: usize) -> (r: Vec<char>)
    requires
        lo <= hi <= words.len(),
    ensures
        r@ == joined(word_models(words@).subrange(lo as int, hi as int)),
{
    let ghost ws = word_models(words@);
    let mut out: Vec<char> = Vec::new();
    let mut previous_was_whitespace = false;
    let ghost mut seen: Seq<char> = seq![];
    let mut k: usize = lo;
    while k < hi
        invariant
            lo <= k <= hi <= words.len(),
            ws == word_models(words@),
            seen == concat_texts(ws.subrange(lo as int, k as int)),
            out@ == collapse_white(seen),
            previous_was_whitespace == (seen.len() > 0 && is_white_space(seen.last())),
        decreases hi - k,
    {
        let text = chars_of(words[k].text.as_str());
        let ghost base = seen;
        let mut m: usize = 0;
        while m < text.len()
            invariant
                m <= text.len(),
                seen == base + text@.subrange(0, m as int),
                out@ == collapse_white(seen),
                previous_was_whitespace == (seen.len() > 0 && is_white_space(seen.last())),
            decreases text.len() - m,
        {
            let c = text[m];
            let ghost prev = seen;
            proof {
                seen = seen.push(c);
                assert(seen.drop_last() =~= prev);
            }
            if is_whitespace(c) {
                if !previous_was_whitespace {
                    out.push(' ');
                }
                previous_was_whitespace = true;
            } else {
                out.push(c);
                previous_was_whitespace = false;
            }
            m += 1;
            assert(seen =~= base + text@.subrange(0, m as int));
        }
        proof {
            let prefix = ws.subrange(lo as int, k as int + 1);
            assert(prefix.drop_last() =~= ws.subrange(lo as int, k as int));
            assert(prefix.last().text == text@);
            assert(seen =~= base + text@);
        }
        k += 1;
    }
    trim_chars(&out)
}

fn is_strong_punctuation(c: char) -> (r: bool)
    ensures
        r == strong_punctuation(c),
{
    c == '。' || c == '！' || c == '？' || c == '；' || c == '.' || c == '!' || c == '?' || c == ';'
        || c == '…'
}

fn is_soft_punctuation(c: char) -> (r: bool)
    ensures
        r == soft_punctuation(c),
{
    c == '，' || c == '、' || c == '：' || c == ',' || c == ':'
}

fn ends_with_strong_punctuation(text: &[char]) -> (r: bool)
    ensures
        r == ends_strong(text@),
{
    let t = trim_end_chars(text);
    t.len() > 0 && is_strong_punctuation(t[t.len() - 1])
}

fn ends_with_soft_punctuation(text: &[char]) -> (r: bool)
    ensures
        r == ends_soft(text@),
{
    let t = trim_end_chars(text);
    t.len() > 0 && is_soft_punctuation(t[t.len() - 1])
}

fn is_punctuation_only(text: &[char]) -> (r: bool)
    ensures
        r == punctuation_only(text@),
{
    let t = trim_chars(text);
    if t.len() == 0 {
        return false;
    }
    let mut k: usize = 0;
    while k < t.len()
        invariant
            k <= t.len(),
            t@ == trim(text@),
            forall|j: int|
                0 <= j < k ==> strong_punctuation(#[trigger] t@[j]) || soft_punctuation(t@[j]),
        decreases t.len() - k,
    {
        if !is_strong_punctuation(t[k]) && !is_soft_punctuation(t[k]) {
            return false;
        }
        k += 1;
    }
    true
}

fn ceil_div_positive_i64(numerator: i64, denominator: i64) -> (r: i64)
    requires
        numerator >= 0,
    ensures
        r == ceil_div(numerator as int, denominator as int),
        r >= 0,
{
    let d: i64 = if denominator < 1 {
        1
    } else {
        denominator
    };
    let n = saturating_add_i64(numerator, d - 1);
    n / d
}

fn usize_div_ceil(a: usize, b: usize) -> (r: usize)
    requires
        b >= 1,
    ensures
        r == div_ceil(a as int, b as int),
{
    let q = a / b;
    if a % b == 0 {
        q
    } else {
        assert(q < a) by (nonlinear_arith)
            requires
                q == a / b,
                b >= 1,
                a % b != 0,
        ;
        q + 1
    }
}

pub open spec fn opt_int(o: Option<usize>) -> Option<int> {
    match o {
        Some(p) => Some(p as int),
        None => None,
    }
}

fn targets_for(words: &Vec<TimedWord>, policy: CuePolicy, start: usize) -> (r: (usize, usize, i64))
    requires
        start < words.len(),
    ensures
        r.0 as int == cue_targets(word_models(words@), policy, start as int).limit,
        r.1 as int == cue_targets(word_models(words@), policy, start as int).chars,
        r.2 as int == cue_targets(word_models(words@), policy, start as int).duration,
{
    let ghost ws = word_models(words@);
    let remaining_text = join_timed_words(words, start, words.len());
    let cjk = contains_cjk(&remaining_text);
    let raw_limit = if cjk {
        policy.max_cjk_chars_per_line
    } else {
        policy.max_chars_per_line
    };
    let limit: usize = if raw_limit < 1 {
        1
    } else {
        raw_limit
    };
    let chars: usize = if remaining_text.len() < 1 {
        1
    } else {
        remaining_text.len()
    };
    let last_end = words[words.len() - 1].end_cs;
    assert(ws.last() == words@[words.len() - 1]@);
    let raw_duration = saturating_sub_i64(last_end, words[start].start_cs);
    let duration: i64 = if raw_duration < 1 {
        1
    } else {
        raw_duration
    };
    let max_duration: i64 = if policy.max_duration_cs < 1 {
        1
    } else {
        policy.max_duration_cs
    };
    let by_duration = ceil_div_positive_i64(duration, max_duration);
    let parts_for_duration: usize = if by_duration as u64 > usize::MAX as u64 {
        usize::MAX
    } else {
        by_duration as usize
    };
    let parts_for_text = usize_div_ceil(chars, limit);
    let larger = if parts_for_text < parts_for_duration {
        parts_for_duration
    } else {
        parts_for_text
    };
    let desired: usize = if larger < 1 {
        1
    } else {
        larger
    };
    let desired_i64: i64 = if desired as u64 > i64::MAX as u64 {
        i64::MAX
    } else {
        desired as i64
    };
    let desired_i64: i64 = if desired_i64 < 1 {
        1
    } else {
        desired_i64
    };
    let by_parts = ceil_div_positive_i64(duration, desired_i64);
    let min_duration: i64 = if policy.min_duration_cs < 1 {
        1
    } else {
        policy.min_duration_cs
    };
    let chars_target_raw = usize_div_ceil(chars, desired);
    let chars_target: usize = if chars_target_raw < 1 {
        1
    } else {
        chars_target_raw
    };
    let duration_target: i64 = if by_parts < min_duration {
        min_duration
    } else {
        by_parts
    };
    (limit, chars_target, duration_target)
}

fn next_cue_end(words: &Vec<TimedWord>, policy: CuePolicy, pause_split_cs: i64, start: usize) -> (r:
    usize)
    requires
        start < words.len(),
    ensures
        r as int == cue_end(word_models(words@), policy, pause_split_cs as int, start as int),
{
    let ghost ws = word_models(words@);
    let (limit, chars_target, duration_target) = targets_for(words, policy, start);
    let ghost t = cue_targets(ws, policy, start as int);
    let ghost total = scan(ws, policy, pause_split_cs as int, start as int, t, start as int, None);
    let max_duration: i64 = if policy.max_duration_cs < 1 {
        1
    } else {
        policy.max_duration_cs
    };
    let min_duration: i64 = if policy.min_duration_cs < 1 {
        1
    } else {
        policy.min_duration_cs
    };
    let pause_split: i64 = if pause_split_cs < 1 {
        1
    } else {
        pause_split_cs
    };
    let mut end = start;
    let mut preferred: Option<usize> = None;
    let mut rewind = false;
    loop
        invariant_except_break
            start <= end <= words.len(),
            ws == word_models(words@),
            !rewind,
            limit == t.limit,
            chars_target == t.chars,
            duration_target == t.duration,
            t == cue_targets(ws, policy, start as int),
            max_duration == at_least_one(policy.max_duration_cs as int),
            min_duration == at_least_one(policy.min_duration_cs as int),
            pause_split == at_least_one(pause_split_cs as int),
            total == scan(ws, policy, pause_split_cs as int, start as int, t, end as int, opt_int(preferred)),
        ensures
            start <= end <= words.len(),
            total == (Scan { end: end as int, preferred: opt_int(preferred), rewind }),
        decreases words.len() - end,
    {
        if end >= words.len() {
            break;
        }
        let candidate = join_timed_words(words, start, end + 1);
        let duration = saturating_sub_i64(words[end].end_cs, words[start].start_cs);
        let word_text = chars_of(words[end].text.as_str());
        let punctuation_suffix = is_punctuation_only(&word_text);
        let exceeds_limit = candidate.len() > chars_target;
        let exceeds_duration = duration > duration_target;
        let exceeds_hard_limit = candidate.len() > limit;
        let exceeds_hard_duration = duration > max_duration;
        let next_pause: i64 = if end + 1 < words.len() {
            saturating_sub_i64(words[end + 1].start_cs, words[end].end_cs)
        } else {
            0
        };
        let natural = ends_with_strong_punctuation(&candidate) || ends_with_soft_punctuation(
            &candidate,
        ) || next_pause >= pause_split;
        let usable = natural && !exceeds_hard_limit && !exceeds_hard_duration;
        proof {
            assert(ws[end as int] == words@[end as int]@);
            if end + 1 < words.len() {
                assert(ws[end + 1] == words@[end + 1]@);
            }
            assert(ws[start as int] == words@[start as int]@);
            assert(candidate@ == joined(ws.subrange(start as int, end + 1)));
            assert(duration == clamp_i64(ws[end as int].end - ws[start as int].start));
            assert(punctuation_suffix == punctuation_only(ws[end as int].text));
            assert(natural == (ends_strong(candidate@) || ends_soft(candidate@) || next_pause >= at_least_one(pause_split_cs as int)));
        }
        if end >= start.saturating_add(2) && exceeds_hard_limit && punctuation_suffix {
            rewind = true;
            break;
        }
        if end > start && (exceeds_limit || exceeds_duration) && !punctuation_suffix && !usable {
            break;
        }
        if natural {
            preferred = Some(end);
            if duration >= min_duration {
                end += 1;
                break;
            }
        }
        end += 1;
    }
    let back: usize = if rewind {
        end.saturating_sub(2)
    } else {
        end.saturating_sub(1)
    };
    let floor: usize = if back < start {
        start
    } else {
        back
    };
    let hard_end: usize = if floor > words.len() - 1 {
        words.len() - 1
    } else {
        floor
    };
    match preferred {
        Some(p) => if p <= hard_end {
            p
        } else {
            hard_end
        },
        None => hard_end,
    }
}

/// Groups timed words into numbered cues. Words without duration or text are ignored;
/// each cue takes its start from its first word and its end from its last.
pub fn build_cues_from_timed_words(words: &[TimedWord], policy: CuePolicy, pause_split_cs: i64) -> (r:
    Vec<SubtitleCue>)
    ensures
        cue_models(r@) == built_cues(word_models(words@), policy, pause_split_cs as int),
        forall|i: int| 0 <= i < r.len() ==> (#[trigger] r@[i]).index == i + 1 && r@[i].text@.len() > 0,
{
    let usable = usable_words_of(words);
    let ghost ws = word_models(usable@);
    let mut cues: Vec<SubtitleCue> = Vec::new();
    let mut start: usize = 0;
    while start < usable.len()
        invariant
            start <= usable.len(),
            ws == word_models(usable@),
            cues.len() <= start,
            cue_models(cues@) + cues_from(
                ws,
                policy,
                pause_split_cs as int,
                start as int,
                cues.len() as int,
            ) == built_cues(word_models(words@), policy, pause_split_cs as int),
        decreases usable.len() - start,
    {
        let cue_end = next_cue_end(&usable, policy, pause_split_cs, start);
        proof {
            lemma_cue_end_range(ws, policy, pause_split_cs as int, start as int);
        }
        let text = join_timed_words(&usable, start, cue_end + 1);
        let ghost before = cue_models(cues@);
        if text.len() > 0 {
            let cue = SubtitleCue {
                index: cues.len() + 1,
                start_cs: usable[start].start_cs,
                end_cs: usable[cue_end].end_cs,
                text: string_of(&text),
            };
            proof {
                assert(ws[start as int] == usable@[start as int]@);
                assert(ws[cue_end as int] == usable@[cue_end as int]@);
            }
            cues.push(cue);
            assert(cue_models(cues@) =~= before.push(cue@));
            assert(cue_models(cues@) + cues_from(
                ws,
                policy,
                pause_split_cs as int,
                cue_end + 1,
                cues.len() as int,
            ) =~= before + cues_from(
                ws,
                policy,
                pause_split_cs as int,
                start as int,
                before.len() as int,
            ));
        }
        start = cue_end + 1;
    }
    assert(cues_from(ws, policy, pause_split_cs as int, start as int, cues.len() as int) =~= seq![]);
    assert(cue_models(cues@) =~= cue_models(cues@) + Seq::<CueModel>::empty());
    proof {
        lemma_cues_from_numbered(ws, policy, pause_split_cs as int, 0, 0);
        assert forall|i: int| 0 <= i < cues.len() implies (#[trigger] cues@[i]).index == i + 1
            && cues@[i].text@.len() > 0 by {
            assert(cue_models(cues@)[i] == cues@[i]@);
        }
    }
    cues
}

} // verus!
