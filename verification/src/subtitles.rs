//! Subtitle cues: SRT parsing and rendering, timestamp formatting and the
//! structural QA that gates publication of a transcript.
use vstd::prelude::*;

pub use crate::cue_builder::build_cues_from_timed_words;
pub use crate::cue_layout::optimize_cues;

use crate::text::{
    chars_of, contains_char, contains_seq, decimal, extend_chars, find_seq, format_padded,
    index_of, is_alphanumeric, is_alphanumeric_char, is_blank, join, join_chars, lemma_index_of,
    lemma_index_of_at, lines, lines_of, lowercase_of, occurs_at, parse_i64, parse_unsigned,
    parsed_i64, parsed_unsigned, push_decimal, push_padded, slice_chars, string_of, to_lowercase,
    trim, trim_chars, views, zero_pad, chars_eq, is_white_space, is_whitespace, lemma_trim_edges,
    lemma_trim_start_at, lemma_trim_end_at, trim_start, trim_end, all_digits, ascii_digit, digit_char,
    digit_value, digits_value,
};

verus! {

broadcast use vstd::string::group_string_axioms;

/// A cue with centisecond timing, as produced by transcription.
#[derive(Debug, Clone, PartialEq, Eq)]
pub struct SubtitleCue {
    pub index: usize,
    pub start_cs: i64,
    pub end_cs: i64,
    pub text: String,
}

/// A cue with millisecond timing, as read from and written to SRT files.
#[derive(Debug, Clone, PartialEq, Eq)]
pub struct SrtCue {
    pub index: usize,
    pub start_ms: i64,
    pub end_ms: i64,
    pub text: String,
}

/// A recognised word (or token run) with centisecond timing.
#[derive(Debug, Clone, PartialEq, Eq)]
pub struct TimedWord {
    pub start_cs: i64,
    pub end_cs: i64,
    pub text: String,
}

/// Readability limits for generated cues.
#[derive(Debug, Clone, Copy)]
pub struct CuePolicy {
    pub min_duration_cs: i64,
    pub max_duration_cs: i64,
    pub end_padding_cs: i64,
    pub max_chars_per_line: usize,
    pub max_cjk_chars_per_line: usize,
    pub max_lines: usize,
}

/// Readability findings that do not prevent publication.
#[derive(Debug, Clone, Default, PartialEq, Eq)]
pub struct SubtitleQaReport {
    pub warnings: Vec<String>,
}

/// The mathematical content of a cue: its index, its two times and its text.
pub struct CueModel {
    pub index: int,
    pub start: int,
    pub end: int,
    pub text: Seq<char>,
}

impl View for SubtitleCue {
    type V = CueModel;

    open spec fn view(&self) -> CueModel {
        CueModel {
            index: self.index as int,
            start: self.start_cs as int,
            end: self.end_cs as int,
            text: self.text@,
        }
    }
}

impl View for SrtCue {
    type V = CueModel;

    open spec fn view(&self) -> CueModel {
        CueModel {
            index: self.index as int,
            start: self.start_ms as int,
            end: self.end_ms as int,
            text: self.text@,
        }
    }
}

pub open spec fn srt_models(cues: Seq<SrtCue>) -> Seq<CueModel> {
    cues.map_values(|c: SrtCue| c@)
}

pub open spec fn cue_models(cues: Seq<SubtitleCue>) -> Seq<CueModel> {
    cues.map_values(|c: SubtitleCue| c@)
}

pub fn copy_srt_cue(cue: &SrtCue) -> (r: SrtCue)
    ensures
        r@ == cue@,
{
    SrtCue { index: cue.index, start_ms: cue.start_ms, end_ms: cue.end_ms, text: cue.text.clone() }
}

pub fn copy_subtitle_cue(cue: &SubtitleCue) -> (r: SubtitleCue)
    ensures
        r@ == cue@,
{
    SubtitleCue {
        index: cue.index,
        start_cs: cue.start_cs,
        end_cs: cue.end_cs,
        text: cue.text.clone(),
    }
}

// ---------------------------------------------------------------------------
// Character classes.
// ---------------------------------------------------------------------------

/// Han (CJK unified and compatibility ideographs), kana and Hangul syllables.
pub open spec fn cjk_char(c: char) -> bool {
    ('\u{3400}' <= c && c <= '\u{4dbf}') || ('\u{4e00}' <= c && c <= '\u{9fff}') || ('\u{f900}'
        <= c && c <= '\u{faff}') || ('\u{3040}' <= c && c <= '\u{30ff}') || ('\u{ac00}' <= c && c
        <= '\u{d7af}')
}

pub fn is_cjk_character(c: char) -> (b: bool)
    ensures
        b == cjk_char(c),
{
    ('\u{3400}' <= c && c <= '\u{4dbf}') || ('\u{4e00}' <= c && c <= '\u{9fff}') || ('\u{f900}'
        <= c && c <= '\u{faff}') || ('\u{3040}' <= c && c <= '\u{30ff}') || ('\u{ac00}' <= c && c
        <= '\u{d7af}')
}

pub open spec fn has_cjk(s: Seq<char>) -> bool {
    exists|k: int| 0 <= k < s.len() && cjk_char(#[trigger] s[k])
}

pub fn contains_cjk(s: &[char]) -> (b: bool)
    ensures
        b == has_cjk(s@),
{
    let mut i: usize = 0;
    while i < s.len()
        invariant
            i <= s.len(),
            forall|k: int| 0 <= k < i ==> !cjk_char(#[trigger] s@[k]),
        decreases s.len() - i,
    {
        if is_cjk_character(s[i]) {
            return true;
        }
        i += 1;
    }
    false
}

// ---------------------------------------------------------------------------
// Timestamps.
// ---------------------------------------------------------------------------

/// Rust's integer division, which truncates toward zero.
pub open spec fn trunc_div(a: int, b: int) -> int {
    if a >= 0 {
        a / b
    } else {
        -((-a) / b)
    }
}

/// Rust's integer remainder, which takes the sign of the dividend.
pub open spec fn trunc_rem(a: int, b: int) -> int {
    a - b * trunc_div(a, b)
}

/// `HH:MM:SS,mmm` for a millisecond count, as `format_timestamp` writes it.
pub open spec fn timestamp_text(t: int) -> Seq<char> {
    format_padded(trunc_div(t, 3_600_000), 2) + seq![':'] + format_padded(
        trunc_div(trunc_rem(t, 3_600_000), 60_000),
        2,
    ) + seq![':'] + format_padded(trunc_div(trunc_rem(t, 60_000), 1_000), 2) + seq![','] + format_padded(
        trunc_rem(t, 1_000),
        3,
    )
}

/// Appends the `{:0width$}` rendering of `-x` (when `negative`) or `x`.
fn push_signed_padded(out: &mut Vec<char>, x: u64, negative: bool, width: usize)
    requires
        width >= 1,
    ensures
        final(out)@ == old(out)@ + format_padded(if negative { -(x as int) } else { x as int }, width as nat),
{
    if negative && x > 0 {
        out.push('-');
        let ghost after_sign = out@;
        push_padded(out, x, width - 1);
        assert(final(out)@ =~= old(out)@ + format_padded(-(x as int), width as nat));
    } else {
        push_padded(out, x, width);
        assert(final(out)@ =~= old(out)@ + format_padded(if negative { -(x as int) } else { x as int }, width as nat));
    }
}

/// Formats a millisecond count as an SRT timestamp.
pub fn format_timestamp(total_millis: i64) -> (r: String)
    ensures
        r@ == timestamp_text(total_millis as int),
{
    let negative = total_millis < 0;
    let magnitude: u64 = if negative {
        ((-(total_millis + 1)) as u64) + 1
    } else {
        total_millis as u64
    };
    let ghost t = total_millis as int;
    let ghost m = magnitude as int;
    assert(m == if t < 0 { -t } else { t });
    let hours = magnitude / 3_600_000;
    let minutes = (magnitude % 3_600_000) / 60_000;
    let seconds = (magnitude % 60_000) / 1_000;
    let millis = magnitude % 1_000;
    let mut out: Vec<char> = Vec::new();
    push_signed_padded(&mut out, hours, negative, 2);
    out.push(':');
    push_signed_padded(&mut out, minutes, negative, 2);
    out.push(':');
    push_signed_padded(&mut out, seconds, negative, 2);
    out.push(',');
    push_signed_padded(&mut out, millis, negative, 3);
    proof {
        assert(trunc_div(t, 3_600_000) == if negative { -(hours as int) } else { hours as int });
        assert(trunc_rem(t, 3_600_000) == if negative { -((m % 3_600_000) as int) } else { m % 3_600_000 });
        assert(trunc_div(trunc_rem(t, 3_600_000), 60_000) == if negative { -(minutes as int) } else { minutes as int });
        assert(trunc_rem(t, 60_000) == if negative { -((m % 60_000) as int) } else { m % 60_000 });
        assert(trunc_div(trunc_rem(t, 60_000), 1_000) == if negative { -(seconds as int) } else { seconds as int });
        assert(trunc_rem(t, 1_000) == if negative { -(millis as int) } else { millis as int });
        assert(out@ =~= timestamp_text(t));
    }
    string_of(&out)
}

/// The pieces before and after the first `c` in `s`.
pub open spec fn split_first(s: Seq<char>, c: char) -> Option<(Seq<char>, Seq<char>)> {
    let n = index_of(s, c);
    if n < s.len() {
        Some((s.subrange(0, n as int), s.subrange(n as int + 1, s.len() as int)))
    } else {
        None
    }
}

/// The millisecond value that `parse_timestamp` reads from `s`, if it accepts it.
pub open spec fn timestamp_value(s: Seq<char>) -> Option<int> {
    let t = trim(s);
    let split = match split_first(t, ',') {
        Some(p) => Some(p),
        None => split_first(t, '.'),
    };
    match split {
        None => None,
        Some((hms, ms)) => match split_first(hms, ':') {
            None => None,
            Some((h, rest)) => match split_first(rest, ':') {
                None => None,
                Some((m, sec)) => {
                    if index_of(sec, ':') < sec.len() {
                        None
                    } else {
                        match (parsed_i64(h), parsed_i64(m), parsed_i64(sec), parsed_i64(ms)) {
                            (Some(hv), Some(mv), Some(sv), Some(msv)) => {
                                if hv < 0 || !(0 <= mv < 60) || !(0 <= sv < 60) || !(0 <= msv
                                    < 1000) {
                                    None
                                } else {
                                    let total = hv * 3_600_000 + mv * 60_000 + sv * 1_000 + msv;
                                    if total <= i64::MAX {
                                        Some(total)
                                    } else {
                                        None
                                    }
                                }
                            },
                            _ => None,
                        }
                    }
                },
            },
        },
    }
}

/// Splits `v` at its first `c`.
fn split_first_exec(v: &[char], c: char) -> (r: Option<(Vec<char>, Vec<char>)>)
    ensures
        match r {
            Some((a, b)) => split_first(v@, c) == Some((a@, b@)),
            None => split_first(v@, c) is None,
        },
{
    let mut i: usize = 0;
    while i < v.len()
        invariant
            i <= v.len(),
            forall|k: int| 0 <= k < i ==> v@[k] != c,
        decreases v.len() - i,
    {
        if v[i] == c {
            proof {
                lemma_index_of_at(v@, c, i as int);
            }
            let a = slice_chars(v, 0, i);
            let b = slice_chars(v, i + 1, v.len());
            return Some((a, b));
        }
        i += 1;
    }
    proof {
        lemma_index_of_at(v@, c, v.len() as int);
    }
    None
}

/// Reads an SRT timestamp (`HH:MM:SS,mmm`, also with `.`) as milliseconds.
pub fn parse_timestamp(input: &str) -> (r: Result<i64, String>)
    ensures
        match r {
            Ok(v) => timestamp_value(input@) == Some(v as int),
            Err(_) => timestamp_value(input@) is None,
        },
{
    let raw = chars_of(input);
    let t = trim_chars(&raw);
    let split = match split_first_exec(&t, ',') {
        Some(p) => Some(p),
        None => split_first_exec(&t, '.'),
    };
    let (hms, ms) = match split {
        Some(p) => p,
        None => {
            return Err(timestamp_error(&t));
        },
    };
    let (h, rest) = match split_first_exec(&hms, ':') {
        Some(p) => p,
        None => {
            return Err(timestamp_error(&t));
        },
    };
    let (m, sec) = match split_first_exec(&rest, ':') {
        Some(p) => p,
        None => {
            return Err(timestamp_error(&t));
        },
    };
    if contains_char(&sec, ':') {
        proof {
            lemma_index_of(sec@, ':');
            let k = choose|k: int| 0 <= k < sec@.len() && sec@[k] == ':';
        }
        return Err(timestamp_error(&t));
    }
    proof {
        lemma_index_of(sec@, ':');
    }
    let hv = match parse_i64(&h) {
        Some(v) => v,
        None => {
            return Err(timestamp_error(&t));
        },
    };
    let mv = match parse_i64(&m) {
        Some(v) => v,
        None => {
            return Err(timestamp_error(&t));
        },
    };
    let sv = match parse_i64(&sec) {
        Some(v) => v,
        None => {
            return Err(timestamp_error(&t));
        },
    };
    let msv = match parse_i64(&ms) {
        Some(v) => v,
        None => {
            return Err(timestamp_error(&t));
        },
    };
    if hv < 0 || !(0 <= mv && mv < 60) || !(0 <= sv && sv < 60) || !(0 <= msv && msv < 1000) {
        return Err(timestamp_error(&t));
    }
    let rest_ms: i64 = mv * 60_000 + sv * 1_000 + msv;
    if hv > (i64::MAX - rest_ms) / 3_600_000 {
        proof {
            assert(hv * 3_600_000 + rest_ms > i64::MAX) by (nonlinear_arith)
                requires
                    hv > (i64::MAX - rest_ms) / 3_600_000,
                    0 <= rest_ms < 3_600_000,
            ;
        }
        return Err(timestamp_too_large_error(&t));
    }
    proof {
        assert(hv * 3_600_000 + rest_ms <= i64::MAX) by (nonlinear_arith)
            requires
                hv <= (i64::MAX - rest_ms) / 3_600_000,
                0 <= rest_ms < 3_600_000,
                hv >= 0,
        ;
    }
    Ok(hv * 3_600_000 + rest_ms)
}

/// `n` written in decimal is all digits and reads back as `n`.
pub(crate) proof fn lemma_decimal_reads_back(n: nat)
    ensures
        decimal(n).len() >= 1,
        all_digits(decimal(n)),
        digits_value(decimal(n)) == n,
    decreases n,
{
    assert('0' as nat == 48);
    if n < 10 {
        assert(digit_char(n) as nat == n + 48);
        let d = decimal(n);
        assert(d =~= seq![digit_char(n)]);
        assert(d.drop_last() =~= Seq::<char>::empty());
        assert(digits_value(d.drop_last()) == 0);
        assert(digit_value(d.last()) == n);
        assert(digits_value(d) == digits_value(d.drop_last()) * 10 + digit_value(d.last()));
    } else {
        lemma_decimal_reads_back(n / 10);
        let d = decimal(n);
        assert(d.drop_last() =~= decimal(n / 10));
        assert(d.last() == digit_char(n % 10));
        assert(digit_char(n % 10) as nat == n % 10 + 48);
        assert forall|k: int| 0 <= k < d.len() implies ascii_digit(#[trigger] d[k]) by {
            if k < d.len() - 1 {
                assert(d[k] == decimal(n / 10)[k]);
            }
        }
    }
}

/// Leading zeros do not change the value of a run of digits.
proof fn lemma_leading_zeros(z: nat, s: Seq<char>)
    requires
        all_digits(s),
    ensures
        all_digits(Seq::new(z, |_i: int| '0') + s),
        digits_value(Seq::new(z, |_i: int| '0') + s) == digits_value(s),
    decreases s.len() + z,
{
    let zs = Seq::new(z, |_i: int| '0');
    let t = zs + s;
    assert forall|k: int| 0 <= k < t.len() implies ascii_digit(#[trigger] t[k]) by {
        if k >= z {
            assert(t[k] == s[k - z]);
        }
    }
    if s.len() > 0 {
        lemma_leading_zeros(z, s.drop_last());
        assert(t.drop_last() =~= zs + s.drop_last());
        assert(t.last() == s.last());
    } else if z > 0 {
        lemma_leading_zeros((z - 1) as nat, s);
        assert(t.drop_last() =~= Seq::new((z - 1) as nat, |_i: int| '0') + s);
        assert(t.last() == '0');
    } else {
        assert(t =~= s);
    }
}

/// A zero-padded field reads back as its value.
pub(crate) proof fn lemma_padded_reads_back(v: nat, width: nat)
    requires
        v <= i64::MAX,
    ensures
        zero_pad(decimal(v), width).len() >= 1,
        all_digits(zero_pad(decimal(v), width)),
        parsed_i64(zero_pad(decimal(v), width)) == Some(v as int),
{
    lemma_decimal_reads_back(v);
    let d = decimal(v);
    if d.len() < width {
        lemma_leading_zeros((width - d.len()) as nat, d);
    }
    let p = zero_pad(d, width);
    assert(ascii_digit(p[0]));
}

/// A run of digits holds none of `c` when `c` is not a digit.
proof fn lemma_digits_lack(s: Seq<char>, c: char)
    requires
        all_digits(s),
        !ascii_digit(c),
    ensures
        index_of(s, c) == s.len(),
{
    lemma_index_of_at(s, c, s.len() as int);
}

/// The first `c` in `a + [c] + b` is the one after `a` when `a` holds none.
proof fn lemma_split_after(a: Seq<char>, c: char, b: Seq<char>)
    requires
        index_of(a, c) == a.len(),
    ensures
        split_first(a + seq![c] + b, c) == Some((a, b)),
{
    let s = a + seq![c] + b;
    lemma_index_of(a, c);
    assert forall|k: int| 0 <= k < a.len() implies s[k] != c by {
        assert(s[k] == a[k]);
    }
    lemma_index_of_at(s, c, a.len() as int);
    assert(s.subrange(0, a.len() as int) =~= a);
    assert(s.subrange(a.len() as int + 1, s.len() as int) =~= b);
}

/// The text of a timestamp from its four fields.
pub open spec fn stamp_text(hv: nat, mv: nat, sv: nat, msv: nat) -> Seq<char> {
    zero_pad(decimal(hv), 2) + seq![':'] + zero_pad(decimal(mv), 2) + seq![':'] + zero_pad(decimal(sv), 2)
        + seq![','] + zero_pad(decimal(msv), 3)
}

/// A non-negative count is written as its hours, minutes, seconds and milliseconds.
pub(crate) proof fn lemma_timestamp_fields(t: int)
    requires
        0 <= t,
    ensures
        timestamp_text(t) == stamp_text(
            (t / 3_600_000) as nat,
            ((t % 3_600_000) / 60_000) as nat,
            ((t % 60_000) / 1_000) as nat,
            (t % 1_000) as nat,
        ),
        (t % 3_600_000) / 60_000 < 60,
        (t % 60_000) / 1_000 < 60,
        (t / 3_600_000) * 3_600_000 + ((t % 3_600_000) / 60_000) * 60_000 + ((t % 60_000) / 1_000) * 1_000
            + t % 1_000 == t,
{
    assert(trunc_div(t, 3_600_000) == t / 3_600_000);
    assert(trunc_rem(t, 3_600_000) == t % 3_600_000);
    assert(trunc_rem(t, 60_000) == t % 60_000);
    assert(trunc_rem(t, 1_000) == t % 1_000);
    assert(timestamp_text(t) =~= stamp_text(
        (t / 3_600_000) as nat,
        ((t % 3_600_000) / 60_000) as nat,
        ((t % 60_000) / 1_000) as nat,
        (t % 1_000) as nat,
    ));
}

/// A timestamp's text has no white space at either end.
proof fn lemma_stamp_trimmed(hv: nat, mv: nat, sv: nat, msv: nat)
    requires
        hv <= i64::MAX,
        mv < 60,
        sv < 60,
        msv < 1000,
    ensures
        trim(stamp_text(hv, mv, sv, msv)) == stamp_text(hv, mv, sv, msv),
{
    lemma_padded_reads_back(hv, 2);
    lemma_padded_reads_back(msv, 3);
    let text = stamp_text(hv, mv, sv, msv);
    let ms = zero_pad(decimal(msv), 3);
    assert(text[0] == zero_pad(decimal(hv), 2)[0]);
    assert(text.last() == ms.last());
    reveal(is_white_space);
    assert(!is_white_space(text[0]));
    assert(!is_white_space(text.last()));
    assert(trim_start(text) == text);
    assert(trim_end(text) == text);
}

/// Where a timestamp's text splits, and what its parts read as.
proof fn lemma_stamp_parts(hv: nat, mv: nat, sv: nat, msv: nat)
    requires
        hv <= i64::MAX,
        mv < 60,
        sv < 60,
        msv < 1000,
    ensures
        ({
            let h = zero_pad(decimal(hv), 2);
            let m = zero_pad(decimal(mv), 2);
            let s = zero_pad(decimal(sv), 2);
            let ms = zero_pad(decimal(msv), 3);
            &&& split_first(stamp_text(hv, mv, sv, msv), ',') == Some((h + seq![':'] + m + seq![':'] + s, ms))
            &&& split_first(h + seq![':'] + m + seq![':'] + s, ':') == Some((h, m + seq![':'] + s))
            &&& split_first(m + seq![':'] + s, ':') == Some((m, s))
            &&& index_of(s, ':') == s.len()
            &&& parsed_i64(h) == Some(hv as int)
            &&& parsed_i64(m) == Some(mv as int)
            &&& parsed_i64(s) == Some(sv as int)
            &&& parsed_i64(ms) == Some(msv as int)
        }),
{
    let h = zero_pad(decimal(hv), 2);
    let m = zero_pad(decimal(mv), 2);
    let s = zero_pad(decimal(sv), 2);
    let ms = zero_pad(decimal(msv), 3);
    lemma_padded_reads_back(hv, 2);
    lemma_padded_reads_back(mv, 2);
    lemma_padded_reads_back(sv, 2);
    lemma_padded_reads_back(msv, 3);
    let hms = h + seq![':'] + m + seq![':'] + s;
    assert forall|k: int| 0 <= k < hms.len() implies hms[k] != ',' by {
        if k < h.len() {
            assert(hms[k] == h[k]);
        } else if k > h.len() && k < h.len() + 1 + m.len() {
            assert(hms[k] == m[k - h.len() - 1]);
        } else if k > h.len() + m.len() + 1 {
            assert(hms[k] == s[k - h.len() - 2 - m.len()]);
        }
    }
    lemma_index_of_at(hms, ',', hms.len() as int);
    lemma_split_after(hms, ',', ms);
    assert(stamp_text(hv, mv, sv, msv) =~= hms + seq![','] + ms);
    lemma_digits_lack(h, ':');
    assert(hms =~= h + seq![':'] + (m + seq![':'] + s));
    lemma_split_after(h, ':', m + seq![':'] + s);
    lemma_digits_lack(m, ':');
    lemma_split_after(m, ':', s);
    lemma_digits_lack(s, ':');
}

/// SRT timestamps read back: for every millisecond count from zero to `i64::MAX`, what
/// `format_timestamp` writes, `parse_timestamp` reads as the same count.
pub proof fn lemma_timestamp_round_trip(t: int)
    requires
        0 <= t <= i64::MAX,
    ensures
        timestamp_value(timestamp_text(t)) == Some(t),
{
    lemma_timestamp_fields(t);
    let hv = (t / 3_600_000) as nat;
    let mv = ((t % 3_600_000) / 60_000) as nat;
    let sv = ((t % 60_000) / 1_000) as nat;
    let msv = (t % 1_000) as nat;
    lemma_stamp_trimmed(hv, mv, sv, msv);
    lemma_stamp_parts(hv, mv, sv, msv);
}


/// The message for a timestamp that does not parse: the fixed text, then the timestamp.
fn timestamp_error(t: &[char]) -> (r: String)
    ensures
        r@ == "invalid subtitle timestamp: "@ + t@,
{
    let mut msg = chars_of("invalid subtitle timestamp: ");
    extend_chars(&mut msg, t);
    string_of(&msg)
}

/// The message for a timestamp whose millisecond count does not fit: the fixed text,
/// then the timestamp.
fn timestamp_too_large_error(t: &[char]) -> (r: String)
    ensures
        r@ == "subtitle timestamp is too large: "@ + t@,
{
    let mut msg = chars_of("subtitle timestamp is too large: ");
    extend_chars(&mut msg, t);
    string_of(&msg)
}


// ---------------------------------------------------------------------------
// Cue text normalisation and comparison.
// ---------------------------------------------------------------------------

/// The trimmed, non-blank lines among `ls`, in order.
pub open spec fn kept_lines(ls: Seq<Seq<char>>) -> Seq<Seq<char>>
    decreases ls.len(),
{
    if ls.len() == 0 {
        seq![]
    } else {
        let rest = kept_lines(ls.drop_last());
        if trim(ls.last()).len() == 0 {
            rest
        } else {
            rest.push(trim(ls.last()))
        }
    }
}

/// Cue text with each line trimmed and blank lines removed.
pub open spec fn normalized_text(s: Seq<char>) -> Seq<char> {
    join(kept_lines(lines(s)), seq!['\n'])
}

pub fn normalize_cue_chars(text: &[char]) -> (r: Vec<char>)
    ensures
        r@ == normalized_text(text@),
{
    let ls = lines_of(text);
    let mut kept: Vec<Vec<char>> = Vec::new();
    let mut i: usize = 0;
    while i < ls.len()
        invariant
            i <= ls.len(),
            views(ls@) == lines(text@),
            views(kept@) == kept_lines(views(ls@).subrange(0, i as int)),
        decreases ls.len() - i,
    {
        let t = trim_chars(&ls[i]);
        let ghost prefix = views(ls@).subrange(0, i as int);
        let ghost before = views(kept@);
        if t.len() > 0 {
            kept.push(t);
            assert(views(kept@) =~= before.push(t@));
        }
        i += 1;
        proof {
            let next = views(ls@).subrange(0, i as int);
            assert(next.drop_last() =~= prefix);
            assert(next.last() == ls@[i - 1]@);
        }
    }
    assert(views(ls@).subrange(0, ls.len() as int) =~= views(ls@));
    let sep = vec!['\n'];
    assert(sep@ =~= seq!['\n']);
    join_chars(&kept, &sep)
}

/// Trims every line of a cue's text and drops blank lines.
pub fn normalize_cue_text(text: &str) -> (r: String)
    ensures
        r@ == normalized_text(text@),
{
    let chars = chars_of(text);
    let normalized = normalize_cue_chars(&chars);
    string_of(&normalized)
}

/// Whether a character takes part in the repeated-text comparison.
pub open spec fn comparable_char(c: char) -> bool {
    is_alphanumeric_char(c) || cjk_char(c)
}

/// Lower-cased alphanumeric and CJK characters of `s`.
pub open spec fn comparable_text(s: Seq<char>) -> Seq<char>
    decreases s.len(),
{
    if s.len() == 0 {
        seq![]
    } else {
        comparable_text(s.drop_last()) + if comparable_char(s.last()) {
            lowercase_of(s.last())
        } else {
            seq![]
        }
    }
}

pub fn comparable_cue_text(s: &[char]) -> (r: Vec<char>)
    ensures
        r@ == comparable_text(s@),
{
    let mut out: Vec<char> = Vec::new();
    let mut i: usize = 0;
    while i < s.len()
        invariant
            i <= s.len(),
            out@ == comparable_text(s@.subrange(0, i as int)),
        decreases s.len() - i,
    {
        let c = s[i];
        let ghost prefix = s@.subrange(0, i as int);
        if is_alphanumeric(c) || is_cjk_character(c) {
            let lower = to_lowercase(c);
            extend_chars(&mut out, &lower);
        }
        i += 1;
        proof {
            let next = s@.subrange(0, i as int);
            assert(next.drop_last() =~= prefix);
            assert(next.last() == c);
            if !(is_alphanumeric_char(c) || cjk_char(c)) {
                assert(out@ =~= comparable_text(next));
            }
        }
    }
    assert(s@.subrange(0, s.len() as int) =~= s@);
    out
}

// ---------------------------------------------------------------------------
// SRT rendering.
// ---------------------------------------------------------------------------

pub open spec fn arrow() -> Seq<char> {
    seq![' ', '-', '-', '>', ' ']
}

/// One SRT block: index, timing line, normalised text and a blank line.
pub open spec fn srt_block(c: CueModel) -> Seq<char> {
    decimal(c.index as nat) + seq!['\n'] + timestamp_text(c.start) + arrow() + timestamp_text(c.end)
        + seq!['\n'] + normalized_text(c.text) + seq!['\n', '\n']
}

/// The SRT document for a sequence of cues.
pub open spec fn srt_document(cues: Seq<CueModel>) -> Seq<char>
    decreases cues.len(),
{
    if cues.len() == 0 {
        seq![]
    } else {
        srt_document(cues.drop_last()) + srt_block(cues.last())
    }
}

fn srt_block_chars(cue: &SrtCue) -> (r: Vec<char>)
    ensures
        r@ == srt_block(cue@),
{
    let mut out: Vec<char> = Vec::new();
    push_decimal(&mut out, cue.index as u64);
    out.push('\n');
    let start = chars_of(format_timestamp(cue.start_ms).as_str());
    extend_chars(&mut out, &start);
    let arrow_chars = vec![' ', '-', '-', '>', ' '];
    extend_chars(&mut out, &arrow_chars);
    let end = chars_of(format_timestamp(cue.end_ms).as_str());
    extend_chars(&mut out, &end);
    out.push('\n');
    let text = normalize_cue_chars(&chars_of(cue.text.as_str()));
    extend_chars(&mut out, &text);
    out.push('\n');
    out.push('\n');
    assert(out@ =~= srt_block(cue@));
    out
}

/// Renders cues as an SRT document.
pub fn render_srt(cues: &[SrtCue]) -> (r: String)
    ensures
        r@ == srt_document(srt_models(cues@)),
{
    let mut out: Vec<char> = Vec::new();
    let mut i: usize = 0;
    while i < cues.len()
        invariant
            i <= cues.len(),
            out@ == srt_document(srt_models(cues@.subrange(0, i as int))),
        decreases cues.len() - i,
    {
        let ghost prefix = srt_models(cues@.subrange(0, i as int));
        let block = srt_block_chars(&cues[i]);
        extend_chars(&mut out, &block);
        i += 1;
        proof {
            let next = srt_models(cues@.subrange(0, i as int));
            assert(next.drop_last() =~= prefix);
            assert(next.last() == cues@[i - 1]@);
        }
    }
    assert(cues@.subrange(0, cues.len() as int) =~= cues@);
    string_of(&out)
}

// ---------------------------------------------------------------------------
// SRT parsing.
// ---------------------------------------------------------------------------

/// Drops every leading byte-order mark.
pub open spec fn strip_boms(s: Seq<char>) -> Seq<char>
    decreases s.len(),
{
    if s.len() > 0 && s[0] == '\u{feff}' {
        strip_boms(s.drop_first())
    } else {
        s
    }
}

/// Replaces `"\r\n"` by `"\n"`, then any remaining `'\r'` by `'\n'`.
pub open spec fn newline_normalized(s: Seq<char>) -> Seq<char>
    decreases s.len(),
{
    if s.len() == 0 {
        seq![]
    } else if s[0] == '\r' && s.len() > 1 && s[1] == '\n' {
        seq!['\n'] + newline_normalized(s.subrange(2, s.len() as int))
    } else if s[0] == '\r' {
        seq!['\n'] + newline_normalized(s.drop_first())
    } else {
        seq![s[0]] + newline_normalized(s.drop_first())
    }
}

/// Groups the lines into runs of non-blank lines; `current` is the run in progress.
pub open spec fn blocks_from(ls: Seq<Seq<char>>, current: Seq<Seq<char>>) -> Seq<Seq<Seq<char>>>
    decreases ls.len(),
{
    if ls.len() == 0 {
        if current.len() > 0 {
            seq![current]
        } else {
            seq![]
        }
    } else if trim(ls[0]).len() == 0 {
        (if current.len() > 0 {
            seq![current]
        } else {
            seq![]
        }) + blocks_from(ls.drop_first(), seq![])
    } else {
        blocks_from(ls.drop_first(), current.push(ls[0]))
    }
}

/// The first position at or after `from` where `pattern` occurs, or `s.len() + 1`.
pub open spec fn first_occurrence_from(s: Seq<char>, pattern: Seq<char>, from: int) -> int
    decreases s.len() + 1 - from,
{
    if from > s.len() || from < 0 {
        s.len() as int + 1
    } else if occurs_at(s, pattern, from) {
        from
    } else {
        first_occurrence_from(s, pattern, from + 1)
    }
}

/// `str::split_once(pattern)`.
pub open spec fn split_once(s: Seq<char>, pattern: Seq<char>) -> Option<(Seq<char>, Seq<char>)> {
    let at = first_occurrence_from(s, pattern, 0);
    if at <= s.len() {
        Some((s.subrange(0, at), s.subrange(at + pattern.len(), s.len() as int)))
    } else {
        None
    }
}

pub(crate) proof fn lemma_first_occurrence(s: Seq<char>, pattern: Seq<char>, from: int, at: int)
    requires
        0 <= from <= at,
        occurs_at(s, pattern, at),
        forall|k: int| from <= k < at ==> !occurs_at(s, pattern, k),
    ensures
        first_occurrence_from(s, pattern, from) == at,
    decreases at - from,
{
    if from < at {
        lemma_first_occurrence(s, pattern, from + 1, at);
    }
}

proof fn lemma_no_occurrence(s: Seq<char>, pattern: Seq<char>, from: int)
    requires
        0 <= from,
        !contains_seq(s, pattern),
    ensures
        first_occurrence_from(s, pattern, from) == s.len() as int + 1,
    decreases s.len() + 1 - from,
{
    if from <= s.len() {
        assert(!occurs_at(s, pattern, from));
        lemma_no_occurrence(s, pattern, from + 1);
    }
}

pub fn split_once_exec(s: &[char], pattern: &[char]) -> (r: Option<(Vec<char>, Vec<char>)>)
    ensures
        match r {
            Some((a, b)) => split_once(s@, pattern@) == Some((a@, b@)),
            None => split_once(s@, pattern@) is None,
        },
{
    match find_seq(s, pattern) {
        Some(at) => {
            proof {
                lemma_first_occurrence(s@, pattern@, 0, at as int);
            }
            let a = slice_chars(s, 0, at);
            assert(at + pattern.len() <= s.len());
            let b = slice_chars(s, at + pattern.len(), s.len());
            Some((a, b))
        },
        None => {
            proof {
                lemma_no_occurrence(s@, pattern@, 0);
            }
            None
        },
    }
}

/// The cue that one block of lines describes, if the block is well formed.
#[verifier::opaque]
pub open spec fn srt_cue_from(run: Seq<Seq<char>>) -> Option<CueModel> {
    if run.len() < 2 {
        None
    } else {
        match parsed_unsigned(trim(run[0]), usize::MAX as int) {
            None => None,
            Some(index) => match split_once(trim(run[1]), seq!['-', '-', '>']) {
                None => None,
                Some((start_text, end_text)) => {
                    let text = trim(join(run.subrange(2, run.len() as int), seq!['\n']));
                    if text.len() == 0 {
                        None
                    } else {
                        match (timestamp_value(start_text), timestamp_value(end_text)) {
                            (Some(start), Some(end)) => {
                                if end < start {
                                    None
                                } else {
                                    Some(CueModel { index, start, end, text })
                                }
                            },
                            _ => None,
                        }
                    }
                },
            },
        }
    }
}

/// All blocks parsed, in order, if every one of them is well formed.
pub open spec fn srt_cues_from(runs: Seq<Seq<Seq<char>>>) -> Option<Seq<CueModel>>
    decreases runs.len(),
{
    if runs.len() == 0 {
        Some(seq![])
    } else {
        match (srt_cues_from(runs.drop_last()), srt_cue_from(runs.last())) {
            (Some(cues), Some(cue)) => Some(cues.push(cue)),
            _ => None,
        }
    }
}

/// The cues that `parse_srt` reads from a document, if it accepts it.
pub open spec fn srt_model(raw: Seq<char>) -> Option<Seq<CueModel>> {
    srt_cues_from(blocks_from(lines(newline_normalized(strip_boms(raw))), seq![]))
}

fn normalize_newlines(raw: &[char]) -> (r: Vec<char>)
    ensures
        r@ == newline_normalized(strip_boms(raw@)),
{
    let mut i: usize = 0;
    assert(raw@.subrange(0, raw.len() as int) =~= raw@);
    while i < raw.len() && raw[i] == '\u{feff}'
        invariant
            i <= raw.len(),
            strip_boms(raw@.subrange(i as int, raw.len() as int)) == strip_boms(raw@),
        decreases raw.len() - i,
    {
        proof {
            assert(raw@.subrange(i as int, raw.len() as int).drop_first() =~= raw@.subrange(
                i + 1,
                raw.len() as int,
            ));
        }
        i += 1;
    }
    let ghost body = raw@.subrange(i as int, raw.len() as int);
    assert(strip_boms(body) == body);
    let mut out: Vec<char> = Vec::new();
    while i < raw.len()
        invariant
            i <= raw.len(),
            out@ + newline_normalized(raw@.subrange(i as int, raw.len() as int))
                == newline_normalized(body),
        decreases raw.len() - i,
    {
        let ghost rest = raw@.subrange(i as int, raw.len() as int);
        if raw[i] == '\r' && i + 1 < raw.len() && raw[i + 1] == '\n' {
            out.push('\n');
            i += 2;
            assert(rest.subrange(2, rest.len() as int) =~= raw@.subrange(i as int, raw.len() as int));
        } else if raw[i] == '\r' {
            out.push('\n');
            i += 1;
            assert(rest.drop_first() =~= raw@.subrange(i as int, raw.len() as int));
        } else {
            out.push(raw[i]);
            i += 1;
            assert(rest.drop_first() =~= raw@.subrange(i as int, raw.len() as int));
        }
        assert(out@ + newline_normalized(raw@.subrange(i as int, raw.len() as int)) =~= newline_normalized(body));
    }
    assert(newline_normalized(raw@.subrange(i as int, raw.len() as int)) =~= Seq::<char>::empty());
    assert(out@ =~= out@ + Seq::<char>::empty());
    out
}

pub open spec fn run_views(runs: Seq<Vec<Vec<char>>>) -> Seq<Seq<Seq<char>>> {
    runs.map_values(|run: Vec<Vec<char>>| views(run@))
}

/// Groups the lines of a normalised document into runs of non-blank lines.
pub fn srt_blocks(ls: &Vec<Vec<char>>) -> (r: Vec<Vec<Vec<char>>>)
    ensures
        run_views(r@) == blocks_from(views(ls@), seq![]),
{
    let mut out: Vec<Vec<Vec<char>>> = Vec::new();
    let mut current: Vec<Vec<char>> = Vec::new();
    let mut i: usize = 0;
    assert(views(ls@).subrange(0, ls.len() as int) =~= views(ls@));
    assert(views(current@) =~= Seq::<Seq<char>>::empty());
    while i < ls.len()
        invariant
            i <= ls.len(),
            run_views(out@) + blocks_from(
                views(ls@).subrange(i as int, ls.len() as int),
                views(current@),
            ) == blocks_from(views(ls@), seq![]),
        decreases ls.len() - i,
    {
        let ghost rest = views(ls@).subrange(i as int, ls.len() as int);
        let ghost before = run_views(out@);
        proof {
            assert(rest[0] == ls@[i as int]@);
            assert(rest.drop_first() =~= views(ls@).subrange(i + 1, ls.len() as int));
        }
        if is_blank(&ls[i]) {
            if current.len() > 0 {
                let ghost run = views(current@);
                let finished = current;
                current = Vec::new();
                out.push(finished);
                assert(run_views(out@) =~= before.push(run));
                assert(before.push(run) =~= before + seq![run]);
            } else {
                assert(before + Seq::<Seq<Seq<char>>>::empty() =~= before);
            }
            assert(views(current@) =~= Seq::<Seq<char>>::empty());
        } else {
            let ghost run = views(current@);
            let line = slice_chars(&ls[i], 0, ls[i].len());
            assert(line@ =~= ls@[i as int]@);
            current.push(line);
            assert(views(current@) =~= run.push(ls@[i as int]@));
        }
        i += 1;
    }
    let ghost before = run_views(out@);
    if current.len() > 0 {
        let ghost run = views(current@);
        out.push(current);
        assert(run_views(out@) =~= before.push(run));
        assert(blocks_from(views(ls@).subrange(i as int, ls.len() as int), run) =~= seq![run]);
    } else {
        assert(blocks_from(views(ls@).subrange(i as int, ls.len() as int), views(current@))
            =~= Seq::<Seq<Seq<char>>>::empty());
    }
    out
}

/// The message for a malformed cue: `cue <index> ` when the index is known, then the
/// message.
fn cue_error(index: Option<usize>, message: &str) -> (r: String)
    ensures
        r@ == match index {
            Some(i) => "cue "@ + decimal(i as nat) + seq![' '],
            None => Seq::<char>::empty(),
        } + message@,
{
    let mut msg: Vec<char> = Vec::new();
    match index {
        Some(i) => {
            extend_chars(&mut msg, &chars_of("cue "));
            push_decimal(&mut msg, i as u64);
            msg.push(' ');
        },
        None => {},
    }
    extend_chars(&mut msg, &chars_of(message));
    assert(msg@ =~= match index {
        Some(i) => "cue "@ + decimal(i as nat) + seq![' '],
        None => Seq::<char>::empty(),
    } + message@);
    string_of(&msg)
}

fn parse_srt_block(run: &Vec<Vec<char>>) -> (r: Result<SrtCue, String>)
    ensures
        match r {
            Ok(c) => srt_cue_from(views(run@)) == Some(c@),
            Err(_) => srt_cue_from(views(run@)) is None,
        },
{
    reveal(srt_cue_from);
    if run.len() < 2 {
        return Err(cue_error(None, "missing cue timing"));
    }
    let ghost rv = views(run@);
    assert(rv[0] == run@[0]@ && rv[1] == run@[1]@);
    let index_text = trim_chars(&run[0]);
    let index = match parse_unsigned(&index_text, usize::MAX as u64) {
        Some(n) => n as usize,
        None => {
            return Err(cue_error(None, "invalid cue index"));
        },
    };
    let timing = trim_chars(&run[1]);
    let arrow_chars = vec!['-', '-', '>'];
    assert(arrow_chars@ =~= seq!['-', '-', '>']);
    let (start_text, end_text) = match split_once_exec(&timing, &arrow_chars) {
        Some(p) => p,
        None => {
            return Err(cue_error(None, "invalid cue timing"));
        },
    };
    let mut body: Vec<Vec<char>> = Vec::new();
    let mut k: usize = 2;
    while k < run.len()
        invariant
            2 <= k <= run.len(),
            rv == views(run@),
            views(body@) == rv.subrange(2, k as int),
        decreases run.len() - k,
    {
        let line = slice_chars(&run[k], 0, run[k].len());
        assert(line@ =~= run@[k as int]@);
        let ghost before = views(body@);
        body.push(line);
        k += 1;
        assert(views(body@) =~= before.push(line@));
        assert(rv[k - 1] == run@[k - 1]@);
        assert(views(body@) =~= rv.subrange(2, k as int));
    }
    let sep = vec!['\n'];
    assert(sep@ =~= seq!['\n']);
    let joined = join_chars(&body, &sep);
    let text = trim_chars(&joined);
    if text.len() == 0 {
        return Err(cue_error(Some(index), "is empty"));
    }
    let start = match parse_timestamp(string_of(&start_text).as_str()) {
        Ok(v) => v,
        Err(e) => {
            return Err(e);
        },
    };
    let end = match parse_timestamp(string_of(&end_text).as_str()) {
        Ok(v) => v,
        Err(e) => {
            return Err(e);
        },
    };
    if end < start {
        return Err(cue_error(Some(index), "ends before it starts"));
    }
    Ok(SrtCue { index, start_ms: start, end_ms: end, text: string_of(&text) })
}

/// Parses an SRT document (byte-order marks, CRLF line endings and flexible arrow
/// spacing are accepted).
pub fn parse_srt(raw: &str) -> (r: Result<Vec<SrtCue>, String>)
    ensures
        match r {
            Ok(cues) => srt_model(raw@) == Some(srt_models(cues@)),
            Err(_) => srt_model(raw@) is None,
        },
{
    let normalized = normalize_newlines(&chars_of(raw));
    let ls = lines_of(&normalized);
    let runs = srt_blocks(&ls);
    let ghost runs_view = run_views(runs@);
    assert(runs_view == blocks_from(lines(newline_normalized(strip_boms(raw@))), seq![]));
    let mut cues: Vec<SrtCue> = Vec::new();
    let mut i: usize = 0;
    while i < runs.len()
        invariant
            i <= runs.len(),
            runs_view == run_views(runs@),
            srt_model(raw@) == srt_cues_from(runs_view),
            srt_cues_from(runs_view.subrange(0, i as int)) == Some(srt_models(cues@)),
        decreases runs.len() - i,
    {
        let ghost prefix = runs_view.subrange(0, i as int);
        let cue = match parse_srt_block(&runs[i]) {
            Ok(c) => c,
            Err(e) => {
                proof {
                    assert(runs_view[i as int] == views(runs@[i as int]@));
                    lemma_srt_cues_from_fails(runs_view, i as int);
                }
                return Err(e);
            },
        };
        let ghost before = srt_models(cues@);
        cues.push(cue);
        i += 1;
        proof {
            let next = runs_view.subrange(0, i as int);
            assert(next.drop_last() =~= prefix);
            assert(next.last() == views(runs@[i - 1]@));
            assert(srt_models(cues@) =~= before.push(cue@));
        }
    }
    assert(runs_view.subrange(0, runs.len() as int) =~= runs_view);
    Ok(cues)
}

proof fn lemma_srt_cues_from_fails(runs: Seq<Seq<Seq<char>>>, i: int)
    requires
        0 <= i < runs.len(),
        srt_cue_from(runs[i]) is None,
    ensures
        srt_cues_from(runs) is None,
    decreases runs.len(),
{
    if i < runs.len() - 1 {
        lemma_srt_cues_from_fails(runs.drop_last(), i);
    }
}


// ---------------------------------------------------------------------------
// Structural QA.
// ---------------------------------------------------------------------------

/// The structural conditions that a published transcript must meet: at least one cue,
/// indexes `1..=n` in order, non-blank text, non-negative increasing timing and no
/// overlap with the previous cue.
pub open spec fn cues_valid(cs: Seq<CueModel>) -> bool {
    &&& cs.len() > 0
    &&& forall|i: int|
        0 <= i < cs.len() ==> {
            &&& (#[trigger] cs[i]).index == i + 1
            &&& trim(cs[i].text).len() > 0
            &&& cs[i].start >= 0
            &&& cs[i].end > cs[i].start
        }
    &&& forall|i: int| 0 < i < cs.len() ==> (#[trigger] cs[i]).start >= cs[i - 1].end
}

/// The structural fault of cue `i`, as the message that reports it: a wrong index,
/// blank text, invalid timing, or a start before the previous cue's end.
pub open spec fn cue_fault(cs: Seq<CueModel>, i: int) -> Option<Seq<char>> {
    let c = cs[i];
    if c.index != i + 1 {
        Some("subtitle QA failed: cue index "@ + decimal(c.index as nat) + " should be "@ + decimal((i + 1) as nat))
    } else if trim(c.text).len() == 0 {
        Some("subtitle QA failed: cue "@ + decimal(c.index as nat) + " has empty text"@)
    } else if c.start < 0 || c.end <= c.start {
        Some("subtitle QA failed: cue "@ + decimal(c.index as nat) + " has invalid timing"@)
    } else if i > 0 && c.start < cs[i - 1].end {
        Some("subtitle QA failed: cue "@ + decimal(c.index as nat) + " overlaps the previous cue"@)
    } else {
        None
    }
}

/// The fault of the first faulty cue from `i` on.
pub open spec fn first_fault(cs: Seq<CueModel>, i: int) -> Option<Seq<char>>
    decreases cs.len() - i,
{
    if i < 0 || i >= cs.len() {
        None
    } else {
        match cue_fault(cs, i) {
            Some(m) => Some(m),
            None => first_fault(cs, i + 1),
        }
    }
}

/// The message with which the structural checks reject a cue list, if they do.
pub open spec fn qa_failure(cs: Seq<CueModel>) -> Option<Seq<char>> {
    if cs.len() == 0 {
        Some("subtitle QA failed: no cues were generated"@)
    } else {
        first_fault(cs, 0)
    }
}

/// Cues without a fault before `i` leave the first fault to be found from `i` on.
proof fn lemma_first_fault_skips(cs: Seq<CueModel>, j: int, i: int)
    requires
        0 <= j <= i <= cs.len(),
        forall|k: int| j <= k < i ==> #[trigger] cue_fault(cs, k) is None,
    ensures
        first_fault(cs, j) == first_fault(cs, i),
    decreases i - j,
{
    if j < i {
        assert(cue_fault(cs, j) is None);
        lemma_first_fault_skips(cs, j + 1, i);
    }
}

/// Seconds with two decimals for a centisecond count.
pub open spec fn centi_text(v: int) -> Seq<char> {
    if v < 0 {
        seq!['-'] + decimal(((-v) / 100) as nat) + seq!['.'] + zero_pad(decimal(((-v) % 100) as nat), 2)
    } else {
        decimal((v / 100) as nat) + seq!['.'] + zero_pad(decimal((v % 100) as nat), 2)
    }
}

pub open spec fn int_text(v: int) -> Seq<char> {
    if v < 0 {
        seq!['-'] + decimal((-v) as nat)
    } else {
        decimal(v as nat)
    }
}

pub open spec fn short_message(index: int, duration: int, minimum: int) -> Seq<char> {
    "cue "@ + int_text(index) + " lasts "@ + centi_text(duration) + "s, below the configured "@
        + centi_text(minimum) + "s minimum because the next cue starts too soon"@
}

pub open spec fn long_message(index: int, duration: int, maximum: int) -> Seq<char> {
    "cue "@ + int_text(index) + " lasts "@ + centi_text(duration) + "s, above the configured "@
        + centi_text(maximum) + "s maximum"@
}

pub open spec fn lines_message(index: int, count: int, maximum: int) -> Seq<char> {
    "cue "@ + int_text(index) + " has "@ + int_text(count) + " lines, above the configured "@
        + int_text(maximum) + "-line maximum"@
}

pub open spec fn line_length_message(index: int, count: int, limit: int) -> Seq<char> {
    "cue "@ + int_text(index) + " has a "@ + int_text(count)
        + "-character line, above the configured "@ + int_text(limit) + "-character limit"@
}

pub open spec fn repeat_message(index: int) -> Seq<char> {
    "cue "@ + int_text(index) + " repeats the previous cue text"@
}

/// The per-line length limit: the CJK limit when the line holds a CJK character.
pub open spec fn line_limit(line: Seq<char>, policy: CuePolicy) -> int {
    if has_cjk(line) {
        policy.max_cjk_chars_per_line as int
    } else {
        policy.max_chars_per_line as int
    }
}

/// Warnings for lines that exceed their limit, in line order.
pub open spec fn line_length_messages(index: int, ls: Seq<Seq<char>>, policy: CuePolicy) -> Seq<
    Seq<char>,
>
    decreases ls.len(),
{
    if ls.len() == 0 {
        seq![]
    } else {
        line_length_messages(index, ls.drop_last(), policy) + if ls.last().len() > line_limit(
            ls.last(),
            policy,
        ) {
            seq![line_length_message(index, ls.last().len() as int, line_limit(ls.last(), policy))]
        } else {
            seq![]
        }
    }
}

/// The warnings for one structurally valid cue, given the comparable text of the cue before it.
pub open spec fn cue_messages(c: CueModel, previous: Option<Seq<char>>, policy: CuePolicy) -> Seq<
    Seq<char>,
> {
    let duration = c.end - c.start;
    let ls = lines(c.text);
    let comparable = comparable_text(c.text);
    (if duration < policy.min_duration_cs {
        seq![short_message(c.index, duration, policy.min_duration_cs as int)]
    } else {
        seq![]
    }) + (if duration > policy.max_duration_cs {
        seq![long_message(c.index, duration, policy.max_duration_cs as int)]
    } else {
        seq![]
    }) + (if ls.len() > policy.max_lines {
        seq![lines_message(c.index, ls.len() as int, policy.max_lines as int)]
    } else {
        seq![]
    }) + line_length_messages(c.index, ls, policy) + (if comparable.len() > 0 && previous == Some(
        comparable,
    ) {
        seq![repeat_message(c.index)]
    } else {
        seq![]
    })
}

/// All readability warnings for a structurally valid transcript, cue by cue.
pub open spec fn qa_messages(cs: Seq<CueModel>, policy: CuePolicy) -> Seq<Seq<char>>
    decreases cs.len(),
{
    if cs.len() == 0 {
        seq![]
    } else {
        qa_messages(cs.drop_last(), policy) + cue_messages(
            cs.last(),
            if cs.len() > 1 {
                Some(comparable_text(cs[cs.len() - 2].text))
            } else {
                None
            },
            policy,
        )
    }
}

/// The comparable text of the cue before cue `j`, as `qa_messages` hands it on.
pub open spec fn previous_text(cs: Seq<CueModel>, j: int) -> Option<Seq<char>> {
    if j > 0 {
        Some(comparable_text(cs[j - 1].text))
    } else {
        None
    }
}

/// The report's messages come cue by cue: what cue `j` contributes stands in the report.
proof fn lemma_cue_messages_reported(cs: Seq<CueModel>, policy: CuePolicy, j: int, x: Seq<char>)
    requires
        0 <= j < cs.len(),
        cue_messages(cs[j], previous_text(cs, j), policy).contains(x),
    ensures
        qa_messages(cs, policy).contains(x),
    decreases cs.len(),
{
    let init = cs.drop_last();
    let front = qa_messages(init, policy);
    let last = cue_messages(cs.last(), previous_text(cs, cs.len() - 1), policy);
    assert(qa_messages(cs, policy) == front + last);
    if j == cs.len() - 1 {
        let k = choose|k: int| 0 <= k < last.len() && last[k] == x;
        assert((front + last)[front.len() + k] == x);
    } else {
        assert(init[j] == cs[j]);
        if j > 0 {
            assert(init[j - 1] == cs[j - 1]);
        }
        assert(previous_text(init, j) == previous_text(cs, j));
        lemma_cue_messages_reported(init, policy, j, x);
        let k = choose|k: int| 0 <= k < front.len() && front[k] == x;
        assert((front + last)[k] == x);
    }
}

/// `x` starts with `cue `, the decimal index and a space.
pub open spec fn headed(x: Seq<char>, idx: nat) -> bool {
    let d = decimal(idx);
    &&& x.len() >= 4 + d.len() + 6
    &&& x.subrange(4, 4 + d.len() as int) == d
    &&& x[4 + d.len() as int] == ' '
}

/// The character `k` places after the index of a message about cue `idx`.
pub open spec fn after_index(x: Seq<char>, idx: nat, k: int) -> char {
    x[4 + decimal(idx).len() as int + k]
}

/// A message names one cue: two cues' headings cannot fit the same text.
proof fn lemma_one_heading(x: Seq<char>, a: nat, b: nat)
    requires
        headed(x, a),
        headed(x, b),
    ensures
        a == b,
{
    lemma_decimal_reads_back(a);
    lemma_decimal_reads_back(b);
    let da = decimal(a);
    let db = decimal(b);
    if da.len() < db.len() {
        assert(x.subrange(4, 4 + db.len() as int)[da.len() as int] == x[4 + da.len() as int]);
        assert(ascii_digit(db[da.len() as int]));
    } else if db.len() < da.len() {
        assert(x.subrange(4, 4 + da.len() as int)[db.len() as int] == x[4 + db.len() as int]);
        assert(ascii_digit(da[db.len() as int]));
    } else {
        assert(da =~= db);
    }
}

/// Every message about a cue is headed by that cue's index; the character after the
/// space tells the kinds apart (`l`asts, `h`as, `r`epeats), and of the two `has`
/// messages a line-length warning has `a` where a line-count warning has a digit.
proof fn lemma_message_heads(idx: nat, u: int, v: int, n: nat)
    ensures
        headed(short_message(idx as int, u, v), idx) && after_index(short_message(idx as int, u, v), idx, 1) == 'l',
        headed(long_message(idx as int, u, v), idx) && after_index(long_message(idx as int, u, v), idx, 1) == 'l',
        headed(repeat_message(idx as int), idx) && after_index(repeat_message(idx as int), idx, 1) == 'r',
        headed(lines_message(idx as int, n as int, v), idx) && after_index(lines_message(idx as int, n as int, v), idx, 1)
            == 'h' && ascii_digit(after_index(lines_message(idx as int, n as int, v), idx, 5)),
        headed(line_length_message(idx as int, u, v), idx) && after_index(line_length_message(idx as int, u, v), idx, 1)
            == 'h' && after_index(line_length_message(idx as int, u, v), idx, 5) == 'a',
{
    reveal_strlit("cue ");
    reveal_strlit(" lasts ");
    reveal_strlit(" has ");
    reveal_strlit(" has a ");
    reveal_strlit(" repeats the previous cue text");
    lemma_decimal_reads_back(n);
    let d = decimal(idx);
    let x1 = short_message(idx as int, u, v);
    assert(x1.subrange(4, 4 + d.len() as int) =~= d);
    let x2 = long_message(idx as int, u, v);
    assert(x2.subrange(4, 4 + d.len() as int) =~= d);
    let x3 = repeat_message(idx as int);
    assert(x3.subrange(4, 4 + d.len() as int) =~= d);
    let x4 = lines_message(idx as int, n as int, v);
    assert(x4.subrange(4, 4 + d.len() as int) =~= d);
    assert(x4[4 + d.len() as int + 5] == decimal(n)[0]);
    let x5 = line_length_message(idx as int, u, v);
    assert(x5.subrange(4, 4 + d.len() as int) =~= d);
}

proof fn lemma_line_length_heads(idx: nat, ls: Seq<Seq<char>>, policy: CuePolicy)
    ensures
        forall|k: int|
            0 <= k < line_length_messages(idx as int, ls, policy).len() ==> {
                let y = #[trigger] line_length_messages(idx as int, ls, policy)[k];
                headed(y, idx) && after_index(y, idx, 1) == 'h' && after_index(y, idx, 5) == 'a'
            },
    decreases ls.len(),
{
    if ls.len() > 0 {
        lemma_line_length_heads(idx, ls.drop_last(), policy);
        let front = line_length_messages(idx as int, ls.drop_last(), policy);
        let all = line_length_messages(idx as int, ls, policy);
        lemma_message_heads(idx, ls.last().len() as int, line_limit(ls.last(), policy), 0);
        assert forall|k: int| 0 <= k < all.len() implies {
            let y = #[trigger] all[k];
            headed(y, idx) && after_index(y, idx, 1) == 'h' && after_index(y, idx, 5) == 'a'
        } by {
            if k < front.len() {
                assert(all[k] == front[k]);
            }
        }
    }
}

/// What one cue contributes to the report is about that cue, and holds a line-count
/// warning only when the cue has more lines than the maximum.
proof fn lemma_cue_message_kinds(c: CueModel, previous: Option<Seq<char>>, policy: CuePolicy, y: Seq<char>)
    requires
        c.index >= 0,
        cue_messages(c, previous, policy).contains(y),
    ensures
        headed(y, c.index as nat),
        after_index(y, c.index as nat, 1) == 'h' && lines(c.text).len() <= policy.max_lines ==> after_index(
            y,
            c.index as nat,
            5,
        ) == 'a',
{
    let idx = c.index as nat;
    let duration = c.end - c.start;
    let ls = lines(c.text);
    let a = if duration < policy.min_duration_cs {
        seq![short_message(c.index, duration, policy.min_duration_cs as int)]
    } else {
        seq![]
    };
    let b = if duration > policy.max_duration_cs {
        seq![long_message(c.index, duration, policy.max_duration_cs as int)]
    } else {
        seq![]
    };
    let cc = if ls.len() > policy.max_lines {
        seq![lines_message(c.index, ls.len() as int, policy.max_lines as int)]
    } else {
        seq![]
    };
    let l = line_length_messages(c.index, ls, policy);
    let comparable = comparable_text(c.text);
    let e = if comparable.len() > 0 && previous == Some(comparable) {
        seq![repeat_message(c.index)]
    } else {
        seq![]
    };
    let all = cue_messages(c, previous, policy);
    assert(all == a + b + cc + l + e);
    lemma_message_heads(idx, duration, policy.min_duration_cs as int, ls.len());
    lemma_message_heads(idx, duration, policy.max_duration_cs as int, ls.len());
    lemma_message_heads(idx, duration, policy.max_lines as int, ls.len());
    lemma_line_length_heads(idx, ls, policy);
    let k = choose|k: int| 0 <= k < all.len() && all[k] == y;
    let n1 = a.len() as int;
    let n2 = n1 + b.len();
    let n3 = n2 + cc.len();
    let n4 = n3 + l.len();
    if k < n1 {
        assert(y == a[k]);
    } else if k < n2 {
        assert(y == b[k - n1]);
    } else if k < n3 {
        assert(y == cc[k - n2]);
    } else if k < n4 {
        assert(y == l[k - n3]);
    } else {
        assert(y == e[k - n4]);
    }
}

/// A message in the report comes from one of the cues.
proof fn lemma_reported_from_cue(cs: Seq<CueModel>, policy: CuePolicy, x: Seq<char>) -> (j: int)
    requires
        qa_messages(cs, policy).contains(x),
    ensures
        0 <= j < cs.len(),
        cue_messages(cs[j], previous_text(cs, j), policy).contains(x),
    decreases cs.len(),
{
    let init = cs.drop_last();
    let front = qa_messages(init, policy);
    let last = cue_messages(cs.last(), previous_text(cs, cs.len() - 1), policy);
    assert(qa_messages(cs, policy) == front + last);
    let k = choose|k: int| 0 <= k < (front + last).len() && (front + last)[k] == x;
    if k < front.len() {
        assert(front[k] == x);
        let j = lemma_reported_from_cue(init, policy, x);
        assert(init[j] == cs[j]);
        if j > 0 {
            assert(init[j - 1] == cs[j - 1]);
        }
        assert(previous_text(init, j) == previous_text(cs, j));
        j
    } else {
        assert(last[k - front.len()] == x);
        cs.len() - 1
    }
}

/// In a structurally valid cue list, a cue within the line maximum gets no line-count
/// warning: together with `lemma_too_many_lines_warned`, the report warns about a cue's
/// line count exactly when it has more lines than `policy.max_lines`.
pub proof fn lemma_line_count_warned_only_when_too_many(cs: Seq<CueModel>, policy: CuePolicy, i: int, n: nat, m: int)
    requires
        cues_valid(cs),
        0 <= i < cs.len(),
        lines(cs[i].text).len() <= policy.max_lines,
    ensures
        !qa_messages(cs, policy).contains(lines_message(cs[i].index, n as int, m)),
{
    let x = lines_message(cs[i].index, n as int, m);
    if qa_messages(cs, policy).contains(x) {
        let j = lemma_reported_from_cue(cs, policy, x);
        assert(cs[j].index == j + 1);
        assert(cs[i].index == i + 1);
        lemma_cue_message_kinds(cs[j], previous_text(cs, j), policy, x);
        lemma_message_heads(cs[i].index as nat, 0, m, n);
        lemma_one_heading(x, cs[i].index as nat, cs[j].index as nat);
        assert(j == i);
    }
}

/// A cue with more lines than the policy allows is reported with a line-count warning
/// naming the cue, its line count and the maximum, whatever the other limits are.
pub proof fn lemma_too_many_lines_warned(cs: Seq<CueModel>, policy: CuePolicy, i: int)
    requires
        0 <= i < cs.len(),
        lines(cs[i].text).len() > policy.max_lines,
    ensures
        qa_messages(cs, policy).contains(
            lines_message(cs[i].index, lines(cs[i].text).len() as int, policy.max_lines as int),
        ),
{
    let c = cs[i];
    let x = lines_message(c.index, lines(c.text).len() as int, policy.max_lines as int);
    let duration = c.end - c.start;
    let a = if duration < policy.min_duration_cs {
        seq![short_message(c.index, duration, policy.min_duration_cs as int)]
    } else {
        seq![]
    };
    let b = if duration > policy.max_duration_cs {
        seq![long_message(c.index, duration, policy.max_duration_cs as int)]
    } else {
        seq![]
    };
    let all = cue_messages(c, previous_text(cs, i), policy);
    assert(all[(a.len() + b.len()) as int] == x);
    lemma_cue_messages_reported(cs, policy, i, x);
}

fn push_int(out: &mut Vec<char>, v: i64)
    ensures
        final(out)@ == old(out)@ + int_text(v as int),
{
    if v < 0 {
        out.push('-');
        let m: u64 = ((-(v + 1)) as u64) + 1;
        push_decimal(out, m);
    } else {
        push_decimal(out, v as u64);
    }
    assert(final(out)@ =~= old(out)@ + int_text(v as int));
}

fn push_centiseconds(out: &mut Vec<char>, v: i64)
    ensures
        final(out)@ == old(out)@ + centi_text(v as int),
{
    let negative = v < 0;
    let m: u64 = if negative { ((-(v + 1)) as u64) + 1 } else { v as u64 };
    if negative {
        out.push('-');
    }
    push_decimal(out, m / 100);
    out.push('.');
    push_padded(out, m % 100, 2);
    assert(final(out)@ =~= old(out)@ + centi_text(v as int));
}

fn message_from(parts: Vec<char>) -> (r: String)
    ensures
        r@ == parts@,
{
    string_of(&parts)
}

fn push_count(out: &mut Vec<char>, v: usize)
    ensures
        final(out)@ == old(out)@ + int_text(v as int),
{
    push_decimal(out, v as u64);
}

fn short_warning(index: usize, duration: i64, minimum: i64) -> (r: String)
    ensures
        r@ == short_message(index as int, duration as int, minimum as int),
{
    let mut m = chars_of("cue ");
    push_count(&mut m, index);
    extend_chars(&mut m, &chars_of(" lasts "));
    push_centiseconds(&mut m, duration);
    extend_chars(&mut m, &chars_of("s, below the configured "));
    push_centiseconds(&mut m, minimum);
    extend_chars(&mut m, &chars_of("s minimum because the next cue starts too soon"));
    assert(m@ =~= short_message(index as int, duration as int, minimum as int));
    string_of(&m)
}

fn long_warning(index: usize, duration: i64, maximum: i64) -> (r: String)
    ensures
        r@ == long_message(index as int, duration as int, maximum as int),
{
    let mut m = chars_of("cue ");
    push_count(&mut m, index);
    extend_chars(&mut m, &chars_of(" lasts "));
    push_centiseconds(&mut m, duration);
    extend_chars(&mut m, &chars_of("s, above the configured "));
    push_centiseconds(&mut m, maximum);
    extend_chars(&mut m, &chars_of("s maximum"));
    assert(m@ =~= long_message(index as int, duration as int, maximum as int));
    string_of(&m)
}

fn lines_warning(index: usize, count: usize, maximum: usize) -> (r: String)
    ensures
        r@ == lines_message(index as int, count as int, maximum as int),
{
    let mut m = chars_of("cue ");
    push_count(&mut m, index);
    extend_chars(&mut m, &chars_of(" has "));
    push_count(&mut m, count);
    extend_chars(&mut m, &chars_of(" lines, above the configured "));
    push_count(&mut m, maximum);
    extend_chars(&mut m, &chars_of("-line maximum"));
    assert(m@ =~= lines_message(index as int, count as int, maximum as int));
    string_of(&m)
}

fn line_length_warning(index: usize, count: usize, limit: usize) -> (r: String)
    ensures
        r@ == line_length_message(index as int, count as int, limit as int),
{
    let mut m = chars_of("cue ");
    push_count(&mut m, index);
    extend_chars(&mut m, &chars_of(" has a "));
    push_count(&mut m, count);
    extend_chars(&mut m, &chars_of("-character line, above the configured "));
    push_count(&mut m, limit);
    extend_chars(&mut m, &chars_of("-character limit"));
    assert(m@ =~= line_length_message(index as int, count as int, limit as int));
    string_of(&m)
}

fn repeat_warning(index: usize) -> (r: String)
    ensures
        r@ == repeat_message(index as int),
{
    let mut m = chars_of("cue ");
    push_count(&mut m, index);
    extend_chars(&mut m, &chars_of(" repeats the previous cue text"));
    assert(m@ =~= repeat_message(index as int));
    string_of(&m)
}

fn line_length_warnings(index: usize, ls: &Vec<Vec<char>>, policy: CuePolicy, warnings: &mut Vec<String>)
    ensures
        views_of_strings(final(warnings)@) == views_of_strings(old(warnings)@)
            + line_length_messages(index as int, views(ls@), policy),
{
    let mut i: usize = 0;
    while i < ls.len()
        invariant
            i <= ls.len(),
            views_of_strings(warnings@) == views_of_strings(old(warnings)@)
                + line_length_messages(index as int, views(ls@).subrange(0, i as int), policy),
        decreases ls.len() - i,
    {
        let line = &ls[i];
        let ghost prefix = views(ls@).subrange(0, i as int);
        let ghost before = views_of_strings(warnings@);
        let limit = if contains_cjk(line) { policy.max_cjk_chars_per_line } else { policy.max_chars_per_line };
        if line.len() > limit {
            let w = line_length_warning(index, line.len(), limit);
            warnings.push(w);
            assert(views_of_strings(warnings@) =~= before.push(w@));
        }
        i += 1;
        proof {
            let next = views(ls@).subrange(0, i as int);
            assert(next.drop_last() =~= prefix);
            assert(next.last() == line@);
            assert(views_of_strings(warnings@) =~= views_of_strings(old(warnings)@)
                + line_length_messages(index as int, next, policy));
        }
    }
    assert(views(ls@).subrange(0, ls.len() as int) =~= views(ls@));
}

/// The character sequences of a vector of strings.
pub open spec fn views_of_strings(v: Seq<String>) -> Seq<Seq<char>> {
    v.map_values(|s: String| s@)
}

proof fn lemma_push_view(v: Seq<String>, w: String)
    ensures
        views_of_strings(v.push(w)) == views_of_strings(v) + seq![w@],
{
    assert(views_of_strings(v.push(w)) =~= views_of_strings(v) + seq![w@]);
}

fn push_when(warnings: &mut Vec<String>, condition: bool, w: String)
    ensures
        views_of_strings(final(warnings)@) == views_of_strings(old(warnings)@) + if condition {
            seq![w@]
        } else {
            seq![]
        },
{
    if condition {
        proof {
            lemma_push_view(warnings@, w);
        }
        warnings.push(w);
    } else {
        assert(views_of_strings(warnings@) =~= views_of_strings(warnings@) + Seq::<Seq<char>>::empty());
    }
}

#[verifier::rlimit(40)]
fn cue_warnings(
    cue: &SubtitleCue,
    previous: &Option<Vec<char>>,
    policy: CuePolicy,
    warnings: &mut Vec<String>,
) -> (comparable: Vec<char>)
    requires
        cue.start_cs >= 0,
        cue.end_cs > cue.start_cs,
    ensures
        comparable@ == comparable_text(cue.text@),
        views_of_strings(final(warnings)@) == views_of_strings(old(warnings)@) + cue_messages(
            cue@,
            match previous {
                Some(p) => Some(p@),
                None => None,
            },
            policy,
        ),
{
    let ghost base = views_of_strings(warnings@);
    let duration = cue.end_cs - cue.start_cs;
    push_when(warnings, duration < policy.min_duration_cs, short_warning(cue.index, duration, policy.min_duration_cs));
    let ghost after_short = views_of_strings(warnings@);
    push_when(warnings, duration > policy.max_duration_cs, long_warning(cue.index, duration, policy.max_duration_cs));
    let ghost after_long = views_of_strings(warnings@);
    let text = chars_of(cue.text.as_str());
    let ls = lines_of(&text);
    push_when(warnings, ls.len() > policy.max_lines, lines_warning(cue.index, ls.len(), policy.max_lines));
    let ghost after_lines = views_of_strings(warnings@);
    line_length_warnings(cue.index, &ls, policy, warnings);
    let ghost after_lengths = views_of_strings(warnings@);
    let comparable = comparable_cue_text(&text);
    let repeated = match previous {
        Some(p) => comparable.len() > 0 && chars_eq(p, &comparable),
        None => false,
    };
    push_when(warnings, repeated, repeat_warning(cue.index));
    proof {
        let prev = match previous {
            Some(p) => Some(p@),
            None => None::<Seq<char>>,
        };
        assert(repeated == (comparable_text(cue.text@).len() > 0 && prev == Some(comparable_text(cue.text@))));
        assert(cue_messages(cue@, prev, policy) =~= (after_short.subrange(base.len() as int, after_short.len() as int))
            + after_long.subrange(after_short.len() as int, after_long.len() as int)
            + after_lines.subrange(after_long.len() as int, after_lines.len() as int)
            + line_length_messages(cue@.index, lines(cue@.text), policy)
            + views_of_strings(warnings@).subrange(after_lengths.len() as int, views_of_strings(warnings@).len() as int));
        assert(views_of_strings(warnings@) =~= base + cue_messages(cue@, prev, policy));
    }
    comparable
}

/// The message for a cue that fails the structural checks: the fixed text, the cue's
/// index, then what is wrong.
fn qa_error(index: usize, what: &str) -> (r: String)
    ensures
        r@ == "subtitle QA failed: cue "@ + decimal(index as nat) + what@,
{
    let mut m = chars_of("subtitle QA failed: cue ");
    push_decimal(&mut m, index as u64);
    extend_chars(&mut m, &chars_of(what));
    assert(m@ =~= "subtitle QA failed: cue "@ + decimal(index as nat) + what@);
    string_of(&m)
}

/// Checks the structure of generated cues and reports readability findings.
///
/// Structural failures (no cues, out-of-order indexes, blank text, invalid timing or
/// overlap) are errors; readability findings are warnings.
#[verifier::rlimit(30)]
pub fn validate_cues(cues: &[SubtitleCue], policy: CuePolicy) -> (r: Result<SubtitleQaReport, String>)
    ensures
        match r {
            Ok(report) => cues_valid(cue_models(cues@)) && views_of_strings(report.warnings@)
                == qa_messages(cue_models(cues@), policy),
            Err(e) => !cues_valid(cue_models(cues@)) && qa_failure(cue_models(cues@)) == Some(e@),
        },
{
    if cues.len() == 0 {
        return Err(string_of(&chars_of("subtitle QA failed: no cues were generated")));
    }
    let ghost cs = cue_models(cues@);
    let mut warnings: Vec<String> = Vec::new();
    let mut previous: Option<Vec<char>> = None;
    let mut previous_end: i64 = 0;
    let mut i: usize = 0;
    while i < cues.len()
        invariant
            i <= cues.len(),
            cs == cue_models(cues@),
            cues.len() > 0,
            forall|k: int|
                0 <= k < i ==> {
                    &&& (#[trigger] cs[k]).index == k + 1
                    &&& trim(cs[k].text).len() > 0
                    &&& cs[k].start >= 0
                    &&& cs[k].end > cs[k].start
                },
            forall|k: int| 0 < k < i ==> (#[trigger] cs[k]).start >= cs[k - 1].end,
            i > 0 ==> previous_end == cs[i - 1].end,
            i == 0 <==> previous is None,
            i > 0 ==> (previous matches Some(p) && p@ == comparable_text(cs[i - 1].text)),
            views_of_strings(warnings@) == qa_messages(cs.subrange(0, i as int), policy),
        decreases cues.len() - i,
    {
        let cue = &cues[i];
        assert(cs[i as int] == cue@);
        proof {
            assert forall|k: int| 0 <= k < i implies #[trigger] cue_fault(cs, k) is None by {
                assert(cs[k].index == k + 1);
                if k > 0 {
                    assert(cs[k].start >= cs[k - 1].end);
                }
            }
            lemma_first_fault_skips(cs, 0, i as int);
        }
        if cue.index != i + 1 {
            let mut m = chars_of("subtitle QA failed: cue index ");
            push_decimal(&mut m, cue.index as u64);
            extend_chars(&mut m, &chars_of(" should be "));
            push_decimal(&mut m, (i + 1) as u64);
            assert(m@ =~= cue_fault(cs, i as int)->Some_0);
            return Err(string_of(&m));
        }
        if is_blank(&chars_of(cue.text.as_str())) {
            assert(("subtitle QA failed: cue "@ + decimal(cue.index as nat)) + " has empty text"@ =~= cue_fault(cs, i as int)->Some_0);
            return Err(qa_error(cue.index, " has empty text"));
        }
        if cue.start_cs < 0 || cue.end_cs <= cue.start_cs {
            assert(("subtitle QA failed: cue "@ + decimal(cue.index as nat)) + " has invalid timing"@ =~= cue_fault(cs, i as int)->Some_0);
            return Err(qa_error(cue.index, " has invalid timing"));
        }
        if i > 0 && cue.start_cs < previous_end {
            assert(("subtitle QA failed: cue "@ + decimal(cue.index as nat)) + " overlaps the previous cue"@ =~= cue_fault(cs, i as int)->Some_0);
            return Err(qa_error(cue.index, " overlaps the previous cue"));
        }
        let ghost prefix = cs.subrange(0, i as int);
        let comparable = cue_warnings(cue, &previous, policy, &mut warnings);
        proof {
            let next = cs.subrange(0, i + 1);
            assert(next.drop_last() =~= prefix);
            assert(next.last() == cue@);
            if i > 0 {
                assert(next[next.len() - 2] == cs[i - 1]);
            }
        }
        previous = Some(comparable);
        previous_end = cue.end_cs;
        i += 1;
    }
    assert(cs.subrange(0, cues.len() as int) =~= cs);
    Ok(SubtitleQaReport { warnings })
}

/// Converts centisecond cues to millisecond SRT cues, failing when a time does not fit.
pub fn transcript_srt_cues(cues: &[SubtitleCue]) -> (r: Result<Vec<SrtCue>, String>)
    ensures
        match r {
            Ok(out) => out@.len() == cues@.len() && forall|i: int|
                0 <= i < cues@.len() ==> (#[trigger] out@[i])@ == (CueModel {
                    index: cues@[i]@.index,
                    start: cues@[i]@.start * 10,
                    end: cues@[i]@.end * 10,
                    text: cues@[i]@.text,
                }),
            Err(_) => exists|i: int|
                0 <= i < cues@.len() && !(i64::MIN <= #[trigger] cues@[i].start_cs * 10 <= i64::MAX
                    && i64::MIN <= cues@[i].end_cs * 10 <= i64::MAX),
        },
{
    let mut out: Vec<SrtCue> = Vec::new();
    let mut i: usize = 0;
    while i < cues.len()
        invariant
            i <= cues.len(),
            out@.len() == i,
            forall|k: int|
                0 <= k < i ==> (#[trigger] out@[k])@ == (CueModel {
                    index: cues@[k]@.index,
                    start: cues@[k]@.start * 10,
                    end: cues@[k]@.end * 10,
                    text: cues@[k]@.text,
                }),
        decreases cues.len() - i,
    {
        let cue = &cues[i];
        let start = match cue.start_cs.checked_mul(10) {
            Some(v) => v,
            None => {
                return Err(string_of(&chars_of("cue start timestamp is too large")));
            },
        };
        let end = match cue.end_cs.checked_mul(10) {
            Some(v) => v,
            None => {
                return Err(string_of(&chars_of("cue end timestamp is too large")));
            },
        };
        out.push(SrtCue { index: cue.index, start_ms: start, end_ms: end, text: cue.text.clone() });
        i += 1;
    }
    Ok(out)
}


// ---------------------------------------------------------------------------
// Splitting long text at natural boundaries.
// ---------------------------------------------------------------------------

/// Punctuation after which a cue may end (full-width and ASCII forms).
pub open spec fn break_punctuation(c: char) -> bool {
    c == '。' || c == '！' || c == '？' || c == '；' || c == '，' || c == '、' || c == '：' || c
        == '.' || c == '!' || c == '?' || c == ';' || c == ',' || c == ':'
}

/// A position after which text may be wrapped.
pub open spec fn text_break(c: char) -> bool {
    is_white_space(c) || break_punctuation(c)
}

pub fn is_forbidden_line_start(c: char) -> (b: bool)
    ensures
        b == break_punctuation(c),
{
    c == '。' || c == '！' || c == '？' || c == '；' || c == '，' || c == '、' || c == '：' || c
        == '.' || c == '!' || c == '?' || c == ';' || c == ',' || c == ':'
}

pub fn is_text_break(c: char) -> (b: bool)
    ensures
        b == text_break(c),
{
    is_whitespace(c) || is_forbidden_line_start(c)
}

/// The last position in `[lo, hi)` holding a break character.
pub open spec fn last_break(cs: Seq<char>, lo: int, hi: int) -> Option<int>
    decreases hi - lo,
{
    if hi <= lo {
        None
    } else if text_break(cs[hi - 1]) {
        Some(hi - 1)
    } else {
        last_break(cs, lo, hi - 1)
    }
}

pub open spec fn sat_add(a: int, b: int) -> int {
    if a + b > usize::MAX {
        usize::MAX as int
    } else {
        a + b
    }
}

/// Where the part that begins at `start` ends.
pub open spec fn part_end(cs: Seq<char>, maximum: int, start: int) -> int {
    let hard_end = if sat_add(start, maximum) < cs.len() {
        sat_add(start, maximum)
    } else {
        cs.len() as int
    };
    if hard_end < cs.len() {
        let earliest = sat_add(
            start,
            (if maximum * 7 > usize::MAX {
                usize::MAX as int
            } else {
                maximum * 7
            }) / 10,
        );
        let end = match last_break(cs, earliest, hard_end) {
            Some(k) => k + 1,
            None => hard_end,
        };
        if break_punctuation(cs[end]) && end > start + 1 {
            end - 1
        } else {
            end
        }
    } else {
        hard_end
    }
}

/// The first position at or after `i` that is not white space.
pub open spec fn skip_white(cs: Seq<char>, i: int) -> int
    decreases cs.len() - i,
{
    if 0 <= i < cs.len() && is_white_space(cs[i]) {
        skip_white(cs, i + 1)
    } else {
        i
    }
}

/// The parts of `cs[start..]`, each at most `maximum` characters, ended at breaks where possible.
pub open spec fn split_parts_from(cs: Seq<char>, maximum: int, start: int) -> Seq<Seq<char>>
    decreases cs.len() - start,
{
    if start < 0 || start >= cs.len() || maximum < 1 {
        seq![]
    } else {
        let end = part_end(cs, maximum, start);
        if end <= start || end > cs.len() {
            seq![]
        } else {
            let part = trim(cs.subrange(start, end));
            proof {
                lemma_skip_white(cs, end);
            }
            (if part.len() > 0 {
                seq![part]
            } else {
                seq![]
            }) + split_parts_from(cs, maximum, skip_white(cs, end))
        }
    }
}

pub open spec fn split_text(cs: Seq<char>, maximum: int) -> Seq<Seq<char>> {
    split_parts_from(cs, if maximum < 1 { 1 } else { maximum }, 0)
}

proof fn lemma_part_end_bounds(cs: Seq<char>, maximum: int, start: int)
    requires
        0 <= start < cs.len(),
        1 <= maximum <= usize::MAX,
        cs.len() <= usize::MAX,
    ensures
        start < part_end(cs, maximum, start) <= cs.len(),
        part_end(cs, maximum, start) - start <= maximum,
{
    let hard_end = if sat_add(start, maximum) < cs.len() {
        sat_add(start, maximum)
    } else {
        cs.len() as int
    };
    if hard_end < cs.len() {
        let earliest = sat_add(
            start,
            (if maximum * 7 > usize::MAX {
                usize::MAX as int
            } else {
                maximum * 7
            }) / 10,
        );
        lemma_last_break_range(cs, earliest, hard_end);
    }
}

proof fn lemma_last_break_range(cs: Seq<char>, lo: int, hi: int)
    ensures
        last_break(cs, lo, hi) matches Some(k) ==> lo <= k < hi && text_break(cs[k]),
        last_break(cs, lo, hi) is None ==> forall|k: int| lo <= k < hi ==> !text_break(cs[k]),
    decreases hi - lo,
{
    if hi > lo && !text_break(cs[hi - 1]) {
        lemma_last_break_range(cs, lo, hi - 1);
    }
}

pub proof fn lemma_skip_white(cs: Seq<char>, i: int)
    requires
        0 <= i <= cs.len(),
    ensures
        i <= skip_white(cs, i) <= cs.len(),
        forall|k: int| i <= k < skip_white(cs, i) ==> is_white_space(cs[k]),
        skip_white(cs, i) < cs.len() ==> !is_white_space(cs[skip_white(cs, i)]),
    decreases cs.len() - i,
{
    if i < cs.len() && is_white_space(cs[i]) {
        lemma_skip_white(cs, i + 1);
    }
}

fn last_break_exec(cs: &[char], lo: usize, hi: usize) -> (r: Option<usize>)
    requires
        hi <= cs.len(),
    ensures
        match r {
            Some(k) => last_break(cs@, lo as int, hi as int) == Some(k as int),
            None => last_break(cs@, lo as int, hi as int) is None,
        },
{
    let mut h = hi;
    while h > lo
        invariant
            lo <= hi ==> lo <= h,
            h <= hi <= cs.len(),
            last_break(cs@, lo as int, hi as int) == last_break(cs@, lo as int, h as int),
        decreases h,
    {
        if is_text_break(cs[h - 1]) {
            return Some(h - 1);
        }
        h -= 1;
    }
    None
}

fn part_end_exec(cs: &[char], maximum: usize, start: usize) -> (r: usize)
    requires
        start < cs.len(),
        maximum >= 1,
    ensures
        r as int == part_end(cs@, maximum as int, start as int),
        start < r <= cs.len(),
        r - start <= maximum,
{
    proof {
        lemma_part_end_bounds(cs@, maximum as int, start as int);
    }
    let hard_end = if start.saturating_add(maximum) < cs.len() { start.saturating_add(maximum) } else { cs.len() };
    if hard_end < cs.len() {
        let scaled: usize = if maximum > usize::MAX / 7 { usize::MAX } else { maximum * 7 };
        let earliest = start.saturating_add(scaled / 10);
        let end = match last_break_exec(cs, earliest, hard_end) {
            Some(k) => k + 1,
            None => hard_end,
        };
        proof {
            lemma_last_break_range(cs@, earliest as int, hard_end as int);
        }
        if is_forbidden_line_start(cs[end]) && end > start + 1 {
            end - 1
        } else {
            end
        }
    } else {
        hard_end
    }
}

/// Splits text into parts of at most `maximum_characters`, preferring to end a part
/// after white space or punctuation and never starting one with punctuation when a
/// shorter part is possible.
pub fn split_text_at_boundaries(text: &[char], maximum_characters: usize) -> (r: Vec<Vec<char>>)
    ensures
        views(r@) == split_text(text@, maximum_characters as int),
        forall|k: int| 0 <= k < r@.len() ==> trim((#[trigger] r@[k])@) == r@[k]@ && r@[k]@.len() > 0,
{
    let maximum = if maximum_characters < 1 { 1 } else { maximum_characters };
    let mut parts: Vec<Vec<char>> = Vec::new();
    let mut start: usize = 0;
    while start < text.len()
        invariant
            start <= text.len(),
            maximum >= 1,
            maximum as int == (if maximum_characters < 1 { 1 } else { maximum_characters as int }),
            views(parts@) + split_parts_from(text@, maximum as int, start as int) == split_text(
                text@,
                maximum_characters as int,
            ),
            forall|k: int| 0 <= k < parts@.len() ==> trim((#[trigger] parts@[k])@) == parts@[k]@ && parts@[k]@.len() > 0,
        decreases text.len() - start,
    {
        let end = part_end_exec(text, maximum, start);
        let slice = slice_chars(text, start, end);
        let part = trim_chars(&slice);
        let ghost before = views(parts@);
        let mut next = end;
        while next < text.len() && is_whitespace(text[next])
            invariant
                end <= next <= text.len(),
                skip_white(text@, end as int) == skip_white(text@, next as int),
            decreases text.len() - next,
        {
            next += 1;
        }
        proof {
            lemma_trim_idempotent(slice@);
        }
        if part.len() > 0 {
            parts.push(part);
            assert(views(parts@) =~= before.push(part@));
        }
        proof {
            assert(split_parts_from(text@, maximum as int, start as int) =~= (if part@.len() > 0 {
                seq![part@]
            } else {
                seq![]
            }) + split_parts_from(text@, maximum as int, next as int));
            assert(views(parts@) + split_parts_from(text@, maximum as int, next as int) =~= before
                + split_parts_from(text@, maximum as int, start as int));
        }
        start = next;
    }
    assert(split_parts_from(text@, maximum as int, start as int) =~= Seq::<Seq<char>>::empty());
    assert(views(parts@) =~= views(parts@) + Seq::<Seq<char>>::empty());
    parts
}

pub proof fn lemma_trim_idempotent(s: Seq<char>)
    ensures
        trim(trim(s)) == trim(s),
{
    lemma_trim_edges(s);
    let t = trim(s);
    if t.len() > 0 {
        lemma_trim_start_at(t, 0);
        lemma_trim_end_at(t.subrange(0, t.len() as int), t.len() as int);
        assert(t.subrange(0, t.len() as int) =~= t);
    } else {
        assert(trim_start(t) == t);
        assert(trim_end(t) == t);
    }
}

} // verus!
