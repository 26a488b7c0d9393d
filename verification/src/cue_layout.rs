//! Cue layout: splitting over-long cues across their duration, and normalising,
//! ordering and de-overlapping a whole cue list.
use vstd::prelude::*;

use crate::subtitles::{
    contains_cjk, copy_subtitle_cue, cue_models, cues_valid, has_cjk, kept_lines, lemma_skip_white,
    normalize_cue_chars, normalized_text, part_end, skip_white, split_parts_from, split_text,
    split_text_at_boundaries, CueModel, CuePolicy, SubtitleCue,
};
use crate::text::{
    chars_of, is_white_space, join, lines, lemma_not_blank, lemma_trim_edges, lemma_trimmed_not_blank,
    string_of, trim, views,
};

verus! {

broadcast use vstd::string::group_string_axioms;

/// `v` saturated to the range of `i64`.
pub open spec fn clamp_i64(v: int) -> int {
    if v > i64::MAX {
        i64::MAX as int
    } else if v < i64::MIN {
        i64::MIN as int
    } else {
        v
    }
}

/// `v` saturated at `usize::MAX`.
pub open spec fn clamp_usize(v: int) -> int {
    if v > usize::MAX {
        usize::MAX as int
    } else {
        v
    }
}

/// `v`, but never below one.
pub open spec fn at_least_one(v: int) -> int {
    if v < 1 {
        1
    } else {
        v
    }
}

/// Saturating `a + b` on `i64`.
pub fn saturating_add_i64(a: i64, b: i64) -> (r: i64)
    ensures
        r == clamp_i64(a + b),
{
    match a.checked_add(b) {
        Some(v) => v,
        None => if b > 0 {
            i64::MAX
        } else {
            i64::MIN
        },
    }
}

/// Saturating `a - b` on `i64`.
pub fn saturating_sub_i64(a: i64, b: i64) -> (r: i64)
    ensures
        r == clamp_i64(a - b),
{
    match a.checked_sub(b) {
        Some(v) => v,
        None => if b < 0 {
            i64::MAX
        } else {
            i64::MIN
        },
    }
}

// ---------------------------------------------------------------------------
// Splitting one cue.
// ---------------------------------------------------------------------------

/// The time `completed / total` of the way through `duration` after `start`.
pub open spec fn proportional(start: int, duration: int, completed: int, total: int) -> int {
    let offset = duration * completed / at_least_one(total);
    clamp_i64(
        start + (if offset > i64::MAX {
            i64::MAX as int
        } else {
            offset
        }),
    )
}

fn proportional_timestamp(
    start_cs: i64,
    duration_cs: i64,
    completed_weight: usize,
    total_weight: usize,
) -> (r: i64)
    requires
        duration_cs >= 0,
    ensures
        r == proportional(
            start_cs as int,
            duration_cs as int,
            completed_weight as int,
            total_weight as int,
        ),
{
    let total: usize = if total_weight < 1 {
        1
    } else {
        total_weight
    };
    let d: i128 = duration_cs as i128;
    let c: i128 = completed_weight as i128;
    assert(0 <= d * c <= 0x7fff_ffff_ffff_ffff * 0xffff_ffff_ffff_ffff) by (nonlinear_arith)
        requires
            0 <= d <= 0x7fff_ffff_ffff_ffff,
            0 <= c <= 0xffff_ffff_ffff_ffff,
    ;
    let product: i128 = d * c;
    let divisor: i128 = total as i128;
    let quotient: i128 = product / divisor;
    let offset: i64 = if quotient > 0x7fff_ffff_ffff_ffff {
        i64::MAX
    } else {
        quotient as i64
    };
    saturating_add_i64(start_cs, offset)
}

/// The line length that applies to `text`: the CJK limit when any CJK character occurs.
pub open spec fn line_limit(policy: CuePolicy, text: Seq<char>) -> int {
    at_least_one(
        if has_cjk(text) {
            policy.max_cjk_chars_per_line as int
        } else {
            policy.max_chars_per_line as int
        },
    )
}

/// The duration that a split spreads its parts over.
pub open spec fn split_duration(c: CueModel) -> int {
    at_least_one(clamp_i64(c.end - c.start))
}

/// The widest part, in characters, that a split of `c` may produce.
pub open spec fn split_width(c: CueModel, policy: CuePolicy) -> int {
    let capacity = line_limit(policy, c.text);
    let count = c.text.len() as int;
    let max_duration = at_least_one(policy.max_duration_cs as int);
    let parts_for_text = clamp_usize(count + capacity - 1) / capacity;
    let parts_for_duration = clamp_usize(
        clamp_i64(split_duration(c) + max_duration - 1) / max_duration,
    );
    let enough = if parts_for_duration < at_least_one(count / 4) {
        parts_for_duration
    } else {
        at_least_one(count / 4)
    };
    let desired = at_least_one(
        if parts_for_text < enough {
            enough
        } else {
            parts_for_text
        },
    );
    let even = clamp_usize(count + desired - 1) / desired;
    at_least_one(
        if even < capacity {
            even
        } else {
            capacity
        },
    )
}

/// How much of a cue's duration a part is given: its length, at least one.
pub open spec fn part_weight(p: Seq<char>) -> int {
    at_least_one(p.len() as int)
}

/// The saturating sum of the weights of the first `k` parts.
pub open spec fn weight_prefix(parts: Seq<Seq<char>>, k: int) -> int
    decreases k,
{
    if k <= 0 {
        0
    } else {
        clamp_usize(weight_prefix(parts, k - 1) + part_weight(parts[k - 1]))
    }
}

pub open spec fn total_weight(parts: Seq<Seq<char>>) -> int {
    at_least_one(weight_prefix(parts, parts.len() as int))
}

/// Where part `i` of a split of `c` into `parts` begins.
pub open spec fn piece_start(c: CueModel, parts: Seq<Seq<char>>, i: int) -> int {
    proportional(c.start, split_duration(c), weight_prefix(parts, i), total_weight(parts))
}

/// Where part `i` of a split of `c` into `parts` ends; the last part keeps the cue's end.
pub open spec fn piece_end(c: CueModel, parts: Seq<Seq<char>>, i: int) -> int {
    if i + 1 == parts.len() {
        c.end
    } else {
        proportional(c.start, split_duration(c), weight_prefix(parts, i + 1), total_weight(parts))
    }
}

pub open spec fn piece(c: CueModel, parts: Seq<Seq<char>>, i: int) -> CueModel {
    CueModel {
        index: c.index,
        start: piece_start(c, parts, i),
        end: piece_end(c, parts, i),
        text: parts[i],
    }
}

/// Every part of the split gets a non-empty time span.
pub open spec fn pieces_fit(c: CueModel, parts: Seq<Seq<char>>) -> bool {
    forall|i: int| 0 <= i < parts.len() ==> piece_start(c, parts, i) < piece_end(c, parts, i)
}

/// The parts of the text of `c` under `policy`.
pub open spec fn split_parts(c: CueModel, policy: CuePolicy) -> Seq<Seq<char>> {
    split_text(c.text, split_width(c, policy))
}

/// A cue split into readable parts, each given a share of the duration in proportion
/// to its length. A cue whose parts cannot all be given time stays whole.
pub open spec fn split_cue(c: CueModel, policy: CuePolicy) -> Seq<CueModel> {
    let parts = split_parts(c, policy);
    if parts.len() == 1 {
        seq![CueModel { index: c.index, start: c.start, end: c.end, text: parts[0] }]
    } else if pieces_fit(c, parts) {
        Seq::new(parts.len(), |i: int| piece(c, parts, i))
    } else {
        seq![c]
    }
}

#[verifier::rlimit(30)]
fn split_long_cue(cue: SubtitleCue, policy: CuePolicy) -> (r: Vec<SubtitleCue>)
    ensures
        cue_models(r@) == split_cue(cue@, policy),
{
    let text = chars_of(cue.text.as_str());
    let uses_cjk = contains_cjk(&text);
    let limit = if uses_cjk {
        policy.max_cjk_chars_per_line
    } else {
        policy.max_chars_per_line
    };
    let capacity: usize = if limit < 1 {
        1
    } else {
        limit
    };
    let count = text.len();
    let raw_duration = saturating_sub_i64(cue.end_cs, cue.start_cs);
    let duration: i64 = if raw_duration < 1 {
        1
    } else {
        raw_duration
    };
    let max_duration: i64 = if policy.max_duration_cs < 1 {
        1
    } else {
        policy.max_duration_cs
    };
    let parts_for_text: usize = count.saturating_add(capacity - 1) / capacity;
    let duration_parts: i64 = saturating_add_i64(duration, max_duration - 1) / max_duration;
    let parts_for_duration: usize = if duration_parts as u64 > usize::MAX as u64 {
        usize::MAX
    } else {
        duration_parts as usize
    };
    let quarter: usize = if count / 4 < 1 {
        1
    } else {
        count / 4
    };
    let enough: usize = if parts_for_duration < quarter {
        parts_for_duration
    } else {
        quarter
    };
    let larger: usize = if parts_for_text < enough {
        enough
    } else {
        parts_for_text
    };
    let desired: usize = if larger < 1 {
        1
    } else {
        larger
    };
    let even: usize = count.saturating_add(desired - 1) / desired;
    let narrower: usize = if even < capacity {
        even
    } else {
        capacity
    };
    let width: usize = if narrower < 1 {
        1
    } else {
        narrower
    };
    assert(width as int == split_width(cue@, policy));
    let parts = split_text_at_boundaries(&text, width);
    let ghost ps = views(parts@);
    assert(ps == split_parts(cue@, policy));
    if parts.len() == 1 {
        let mut whole = cue;
        whole.text = string_of(&parts[0]);
        let r = vec![whole];
        assert(cue_models(r@) =~= split_cue(cue@, policy));
        return r;
    }
    let mut total: usize = 0;
    let mut k: usize = 0;
    while k < parts.len()
        invariant
            k <= parts.len(),
            ps == views(parts@),
            total as int == weight_prefix(ps, k as int),
        decreases parts.len() - k,
    {
        let w: usize = if parts[k].len() < 1 {
            1
        } else {
            parts[k].len()
        };
        total = total.saturating_add(w);
        k += 1;
    }
    let total: usize = if total < 1 {
        1
    } else {
        total
    };
    assert(total as int == total_weight(ps));
    let mut out: Vec<SubtitleCue> = Vec::new();
    let mut cumulative: usize = 0;
    let mut i: usize = 0;
    while i < parts.len()
        invariant
            i <= parts.len(),
            parts.len() != 1,
            ps == views(parts@),
            ps == split_parts(cue@, policy),
            duration as int == split_duration(cue@),
            duration >= 1,
            total as int == total_weight(ps),
            cumulative as int == weight_prefix(ps, i as int),
            forall|j: int| 0 <= j < i ==> piece_start(cue@, ps, j) < piece_end(cue@, ps, j),
            cue_models(out@) == Seq::new(i as nat, |j: int| piece(cue@, ps, j)),
        decreases parts.len() - i,
    {
        let start_cs = proportional_timestamp(cue.start_cs, duration, cumulative, total);
        let w: usize = if parts[i].len() < 1 {
            1
        } else {
            parts[i].len()
        };
        cumulative = cumulative.saturating_add(w);
        let end_cs = if i + 1 == parts.len() {
            cue.end_cs
        } else {
            proportional_timestamp(cue.start_cs, duration, cumulative, total)
        };
        assert(start_cs as int == piece_start(cue@, ps, i as int));
        assert(end_cs as int == piece_end(cue@, ps, i as int));
        if end_cs <= start_cs {
            let r = vec![cue];
            assert(!pieces_fit(cue@, ps));
            assert(cue_models(r@) =~= split_cue(cue@, policy));
            return r;
        }
        let ghost before = cue_models(out@);
        let part_text = string_of(&parts[i]);
        assert(part_text@ == ps[i as int]);
        let next = SubtitleCue { index: cue.index, start_cs, end_cs, text: part_text };
        assert(next@ == piece(cue@, ps, i as int));
        out.push(next);
        assert(cue_models(out@) =~= before.push(piece(cue@, ps, i as int)));
        i += 1;
        assert(cue_models(out@) =~= Seq::new(i as nat, |j: int| piece(cue@, ps, j)));
    }
    assert(cue_models(out@) =~= split_cue(cue@, policy));
    out
}


// ---------------------------------------------------------------------------
// Normalising a cue list.
// ---------------------------------------------------------------------------

/// `v` clamped into `[lo, hi]`.
pub open spec fn clamp_to(v: int, lo: int, hi: int) -> int {
    if v < lo {
        lo
    } else if v > hi {
        hi
    } else {
        v
    }
}

/// A cue with normalised text and times clamped into `[0, media]`, its end pushed
/// to a minimum duration when it does not follow its start; `None` when its text is
/// blank or nothing of it lies inside the media.
pub open spec fn normalize_cue(c: CueModel, media: int, min_duration: int) -> Option<CueModel> {
    let text = normalized_text(c.text);
    let start = clamp_to(c.start, 0, media);
    let clamped_end = clamp_to(c.end, 0, media);
    let end = if clamped_end <= start {
        let extended = clamp_i64(start + min_duration);
        if extended < media {
            extended
        } else {
            media
        }
    } else {
        clamped_end
    };
    if text.len() == 0 || start >= media || end <= start {
        None
    } else {
        Some(CueModel { index: c.index, start, end, text })
    }
}

pub open spec fn normalized_cues(s: Seq<CueModel>, media: int, min_duration: int) -> Seq<CueModel>
    decreases s.len(),
{
    if s.len() == 0 {
        seq![]
    } else {
        let rest = normalized_cues(s.drop_last(), media, min_duration);
        match normalize_cue(s.last(), media, min_duration) {
            Some(c) => rest.push(c),
            None => rest,
        }
    }
}

/// A cue whose end is padded, kept at least `min_duration` after its start, and
/// capped at the end of the media.
pub open spec fn padded(c: CueModel, media: int, min_duration: int, padding: int) -> CueModel {
    let minimum_end = clamp_i64(c.start + min_duration);
    let extended = clamp_i64(c.end + padding);
    let raised = if extended < minimum_end {
        minimum_end
    } else {
        extended
    };
    CueModel {
        index: c.index,
        start: c.start,
        end: if raised > media {
            media
        } else {
            raised
        },
        text: c.text,
    }
}

pub open spec fn padded_pieces(
    c: CueModel,
    policy: CuePolicy,
    media: int,
    min_duration: int,
    padding: int,
) -> Seq<CueModel> {
    split_cue(c, policy).map_values(|p: CueModel| padded(p, media, min_duration, padding))
}

pub open spec fn split_cues(
    s: Seq<CueModel>,
    policy: CuePolicy,
    media: int,
    min_duration: int,
    padding: int,
) -> Seq<CueModel>
    decreases s.len(),
{
    if s.len() == 0 {
        seq![]
    } else {
        split_cues(s.drop_last(), policy, media, min_duration, padding) + padded_pieces(
            s.last(),
            policy,
            media,
            min_duration,
            padding,
        )
    }
}

/// The order of cues: by start, then end, then index.
pub open spec fn cue_key_le(a: CueModel, b: CueModel) -> bool {
    a.start < b.start || (a.start == b.start && (a.end < b.end || (a.end == b.end && a.index
        <= b.index)))
}

/// `x` placed into `t` after every cue that does not order after it.
pub open spec fn insert_sorted(t: Seq<CueModel>, x: CueModel) -> Seq<CueModel>
    decreases t.len(),
{
    if t.len() == 0 {
        seq![x]
    } else if cue_key_le(t.last(), x) {
        t.push(x)
    } else {
        insert_sorted(t.drop_last(), x).push(t.last())
    }
}

/// The stable sort of `s` by start, end and index.
pub open spec fn sort_cues(s: Seq<CueModel>) -> Seq<CueModel>
    decreases s.len(),
{
    if s.len() == 0 {
        seq![]
    } else {
        insert_sorted(sort_cues(s.drop_last()), s.last())
    }
}

/// Cue `i` of `s`, ended no later than the start of the cue after it.
pub open spec fn trimmed(s: Seq<CueModel>, i: int) -> CueModel {
    if i + 1 < s.len() && s[i].end > s[i + 1].start {
        CueModel { index: s[i].index, start: s[i].start, end: s[i + 1].start, text: s[i].text }
    } else {
        s[i]
    }
}

pub open spec fn trim_overlaps(s: Seq<CueModel>) -> Seq<CueModel> {
    Seq::new(s.len(), |i: int| trimmed(s, i))
}

/// The cues of `s` that end after they start, in order.
pub open spec fn kept_positive(s: Seq<CueModel>) -> Seq<CueModel>
    decreases s.len(),
{
    if s.len() == 0 {
        seq![]
    } else if s.last().end > s.last().start {
        kept_positive(s.drop_last()).push(s.last())
    } else {
        kept_positive(s.drop_last())
    }
}

/// `s` with its cues numbered from one.
pub open spec fn renumbered(s: Seq<CueModel>) -> Seq<CueModel> {
    Seq::new(
        s.len(),
        |i: int| CueModel { index: i + 1, start: s[i].start, end: s[i].end, text: s[i].text },
    )
}

pub open spec fn media_span(media_duration: int) -> int {
    if media_duration < 0 {
        0
    } else {
        media_duration
    }
}

/// The cue list that `optimize_cues` produces.
pub open spec fn optimized_cues(
    cues: Seq<CueModel>,
    media_duration: int,
    policy: CuePolicy,
) -> Seq<CueModel> {
    let media = media_span(media_duration);
    let min_duration = at_least_one(policy.min_duration_cs as int);
    let padding = if policy.end_padding_cs < 0 {
        0
    } else {
        policy.end_padding_cs as int
    };
    renumbered(
        kept_positive(
            trim_overlaps(
                sort_cues(
                    split_cues(
                        normalized_cues(cues, media, min_duration),
                        policy,
                        media,
                        min_duration,
                        padding,
                    ),
                ),
            ),
        ),
    )
}

/// Every cue lies inside `[0, media]`.
pub open spec fn inside_media(s: Seq<CueModel>, media: int) -> bool {
    forall|i: int| 0 <= i < s.len() ==> 0 <= #[trigger] s[i].start && s[i].end <= media
}

/// Starts never decrease.
pub open spec fn starts_ordered(s: Seq<CueModel>) -> bool {
    forall|i: int, j: int| 0 <= i < j < s.len() ==> #[trigger] s[i].start <= #[trigger] s[j].start
}

/// No cue ends after a later cue starts.
pub open spec fn no_overlaps(s: Seq<CueModel>) -> bool {
    forall|i: int, j: int| 0 <= i < j < s.len() ==> #[trigger] s[i].end <= #[trigger] s[j].start
}

/// A well-formed timeline: numbered from one, every cue inside the media with a
/// positive span, in order of start, and without overlaps.
pub open spec fn timeline(s: Seq<CueModel>, media: int) -> bool {
    &&& forall|i: int| 0 <= i < s.len() ==> (#[trigger] s[i]).index == i + 1
    &&& forall|i: int| 0 <= i < s.len() ==> (#[trigger] s[i]).start < s[i].end
    &&& inside_media(s, media)
    &&& starts_ordered(s)
    &&& no_overlaps(s)
}

proof fn lemma_normalized_inside(s: Seq<CueModel>, media: int, min_duration: int)
    requires
        media >= 0,
    ensures
        inside_media(normalized_cues(s, media, min_duration), media),
        forall|i: int|
            0 <= i < normalized_cues(s, media, min_duration).len() ==> (#[trigger] normalized_cues(
                s,
                media,
                min_duration,
            )[i]).start < normalized_cues(s, media, min_duration)[i].end,
    decreases s.len(),
{
    if s.len() > 0 {
        lemma_normalized_inside(s.drop_last(), media, min_duration);
    }
}

proof fn lemma_proportional_after(start: int, duration: int, completed: int, total: int)
    requires
        i64::MIN <= start <= i64::MAX,
        duration >= 0,
        completed >= 0,
    ensures
        proportional(start, duration, completed, total) >= start,
{
    let t = at_least_one(total);
    assert(duration * completed / t >= 0) by (nonlinear_arith)
        requires
            duration >= 0,
            completed >= 0,
            t >= 1,
    ;
}

proof fn lemma_weight_prefix_nonneg(parts: Seq<Seq<char>>, k: int)
    ensures
        weight_prefix(parts, k) >= 0,
    decreases k,
{
    if k > 0 {
        lemma_weight_prefix_nonneg(parts, k - 1);
    }
}

proof fn lemma_pieces_start_after(c: CueModel, policy: CuePolicy)
    requires
        i64::MIN <= c.start <= i64::MAX,
    ensures
        forall|i: int|
            0 <= i < split_cue(c, policy).len() ==> (#[trigger] split_cue(c, policy)[i]).start
                >= c.start,
{
    let parts = split_parts(c, policy);
    if parts.len() != 1 && pieces_fit(c, parts) {
        assert forall|i: int| 0 <= i < split_cue(c, policy).len() implies (#[trigger] split_cue(
            c,
            policy,
        )[i]).start >= c.start by {
            lemma_weight_prefix_nonneg(parts, i);
            lemma_proportional_after(
                c.start,
                split_duration(c),
                weight_prefix(parts, i),
                total_weight(parts),
            );
        }
    }
}

proof fn lemma_split_inside(
    s: Seq<CueModel>,
    policy: CuePolicy,
    media: int,
    min_duration: int,
    padding: int,
)
    requires
        inside_media(s, media),
        forall|i: int| 0 <= i < s.len() ==> (#[trigger] s[i]).start <= i64::MAX,
    ensures
        inside_media(split_cues(s, policy, media, min_duration, padding), media),
    decreases s.len(),
{
    if s.len() > 0 {
        let init = s.drop_last();
        assert forall|i: int| 0 <= i < init.len() implies 0 <= #[trigger] init[i].start
            && init[i].end <= media by {
            assert(init[i] == s[i]);
        }
        assert forall|i: int| 0 <= i < init.len() implies (#[trigger] init[i]).start
            <= i64::MAX by {
            assert(init[i] == s[i]);
        }
        lemma_split_inside(init, policy, media, min_duration, padding);
        let last = s.last();
        assert(0 <= last.start && last.end <= media && last.start <= i64::MAX) by {
            assert(last == s[s.len() - 1]);
        }
        lemma_pieces_start_after(last, policy);
        let rest = split_cues(init, policy, media, min_duration, padding);
        let tail = padded_pieces(last, policy, media, min_duration, padding);
        let whole = split_cues(s, policy, media, min_duration, padding);
        assert(whole == rest + tail);
        assert forall|i: int| 0 <= i < whole.len() implies 0 <= #[trigger] whole[i].start
            && whole[i].end <= media by {
            if i >= rest.len() {
                let k = i - rest.len();
                assert(whole[i] == tail[k]);
                assert(tail[k] == padded(split_cue(last, policy)[k], media, min_duration, padding));
            }
        }
    }
}

proof fn lemma_insert_keeps(t: Seq<CueModel>, x: CueModel, media: int)
    requires
        inside_media(t, media),
        0 <= x.start && x.end <= media,
        starts_ordered(t),
    ensures
        inside_media(insert_sorted(t, x), media),
        starts_ordered(insert_sorted(t, x)),
        insert_sorted(t, x).len() == t.len() + 1,
    decreases t.len(),
{
    if t.len() > 0 {
        if cue_key_le(t.last(), x) {
            let r = t.push(x);
            assert forall|i: int, j: int| 0 <= i < j < r.len() implies #[trigger] r[i].start
                <= #[trigger] r[j].start by {
                if j == t.len() {
                    if i < t.len() - 1 {
                        assert(t[i].start <= t[t.len() - 1].start);
                    }
                } else {
                    assert(t[i].start <= t[j].start);
                }
            }
        } else {
            let init = t.drop_last();
            assert forall|i: int, j: int| 0 <= i < j < init.len() implies #[trigger] init[i].start
                <= #[trigger] init[j].start by {
                assert(t[i].start <= t[j].start);
            }
            assert forall|i: int| 0 <= i < init.len() implies 0 <= #[trigger] init[i].start
                && init[i].end <= media by {
                assert(init[i] == t[i]);
            }
            lemma_insert_keeps(init, x, media);
            let inner = insert_sorted(init, x);
            let r = inner.push(t.last());
            assert(0 <= t.last().start && t.last().end <= media) by {
                assert(t.last() == t[t.len() - 1]);
            }
            lemma_insert_members(init, x);
            assert forall|i: int, j: int| 0 <= i < j < r.len() implies #[trigger] r[i].start
                <= #[trigger] r[j].start by {
                if j == inner.len() {
                    assert(r[i] == inner[i]);
                    if inner[i] != x {
                        let k = choose|k: int| 0 <= k < init.len() && init[k] == inner[i];
                        assert(t[k].start <= t[t.len() - 1].start);
                    }
                } else {
                    assert(inner[i].start <= inner[j].start);
                }
            }
        }
    }
}

/// Every cue of `insert_sorted(t, x)` is `x` or a cue of `t`.
proof fn lemma_insert_members(t: Seq<CueModel>, x: CueModel)
    ensures
        forall|i: int|
            0 <= i < insert_sorted(t, x).len() ==> #[trigger] insert_sorted(t, x)[i] == x || exists|
                k: int,
            |
                0 <= k < t.len() && t[k] == insert_sorted(t, x)[i],
    decreases t.len(),
{
    if t.len() > 0 {
        if cue_key_le(t.last(), x) {
            let r = t.push(x);
            assert forall|i: int| 0 <= i < r.len() implies #[trigger] r[i] == x || exists|k: int|
                0 <= k < t.len() && t[k] == r[i] by {
                if i < t.len() {
                    assert(t[i] == r[i]);
                }
            }
        } else {
            let init = t.drop_last();
            lemma_insert_members(init, x);
            let inner = insert_sorted(init, x);
            let r = inner.push(t.last());
            assert forall|i: int| 0 <= i < r.len() implies #[trigger] r[i] == x || exists|k: int|
                0 <= k < t.len() && t[k] == r[i] by {
                if i == inner.len() {
                    assert(t[t.len() - 1] == r[i]);
                } else {
                    assert(r[i] == inner[i]);
                    if inner[i] != x {
                        let k = choose|k: int| 0 <= k < init.len() && init[k] == inner[i];
                        assert(t[k] == r[i]);
                    }
                }
            }
        }
    }
}

proof fn lemma_sort_keeps(s: Seq<CueModel>, media: int)
    requires
        inside_media(s, media),
    ensures
        inside_media(sort_cues(s), media),
        starts_ordered(sort_cues(s)),
        sort_cues(s).len() == s.len(),
    decreases s.len(),
{
    if s.len() > 0 {
        let init = s.drop_last();
        assert forall|i: int| 0 <= i < init.len() implies 0 <= #[trigger] init[i].start
            && init[i].end <= media by {
            assert(init[i] == s[i]);
        }
        lemma_sort_keeps(init, media);
        assert(0 <= s.last().start && s.last().end <= media) by {
            assert(s.last() == s[s.len() - 1]);
        }
        lemma_insert_keeps(sort_cues(init), s.last(), media);
    }
}

proof fn lemma_trim_overlaps(s: Seq<CueModel>, media: int)
    requires
        inside_media(s, media),
        starts_ordered(s),
    ensures
        inside_media(trim_overlaps(s), media),
        starts_ordered(trim_overlaps(s)),
        no_overlaps(trim_overlaps(s)),
{
    let t = trim_overlaps(s);
    assert forall|i: int| 0 <= i < t.len() implies 0 <= #[trigger] t[i].start && t[i].end
        <= media by {
        assert(t[i] == trimmed(s, i));
    }
    assert forall|i: int, j: int| 0 <= i < j < t.len() implies #[trigger] t[i].start
        <= #[trigger] t[j].start by {
        assert(t[i] == trimmed(s, i));
        assert(t[j] == trimmed(s, j));
        assert(s[i].start <= s[j].start);
    }
    assert forall|i: int, j: int| 0 <= i < j < t.len() implies #[trigger] t[i].end
        <= #[trigger] t[j].start by {
        assert(t[i] == trimmed(s, i));
        assert(t[j] == trimmed(s, j));
        if i + 1 < j {
            assert(s[i + 1].start <= s[j].start);
        }
    }
}

proof fn lemma_kept_members(s: Seq<CueModel>)
    ensures
        forall|i: int|
            0 <= i < kept_positive(s).len() ==> exists|k: int|
                0 <= k < s.len() && s[k] == #[trigger] kept_positive(s)[i],
        forall|i: int|
            0 <= i < kept_positive(s).len() ==> (#[trigger] kept_positive(s)[i]).start
                < kept_positive(s)[i].end,
    decreases s.len(),
{
    if s.len() > 0 {
        let init = s.drop_last();
        lemma_kept_members(init);
        let k0 = kept_positive(init);
        let r = kept_positive(s);
        assert forall|i: int| 0 <= i < r.len() implies exists|k: int|
            0 <= k < s.len() && s[k] == #[trigger] r[i] by {
            if i < k0.len() {
                assert(r[i] == k0[i]);
                let k = choose|k: int| 0 <= k < init.len() && init[k] == k0[i];
                assert(s[k] == r[i]);
            } else {
                assert(s[s.len() - 1] == r[i]);
            }
        }
        assert forall|i: int| 0 <= i < r.len() implies (#[trigger] r[i]).start < r[i].end by {
            if i < k0.len() {
                assert(r[i] == k0[i]);
            }
        }
    }
}

proof fn lemma_kept_keeps(s: Seq<CueModel>, media: int)
    requires
        inside_media(s, media),
        starts_ordered(s),
        no_overlaps(s),
    ensures
        inside_media(kept_positive(s), media),
        starts_ordered(kept_positive(s)),
        no_overlaps(kept_positive(s)),
    decreases s.len(),
{
    if s.len() > 0 {
        let init = s.drop_last();
        assert forall|i: int| 0 <= i < init.len() implies 0 <= #[trigger] init[i].start
            && init[i].end <= media by {
            assert(init[i] == s[i]);
        }
        assert forall|i: int, j: int| 0 <= i < j < init.len() implies #[trigger] init[i].start
            <= #[trigger] init[j].start by {
            assert(s[i].start <= s[j].start);
        }
        assert forall|i: int, j: int| 0 <= i < j < init.len() implies #[trigger] init[i].end
            <= #[trigger] init[j].start by {
            assert(s[i].end <= s[j].start);
        }
        lemma_kept_keeps(init, media);
        lemma_kept_members(init);
        let k0 = kept_positive(init);
        let last = s.last();
        if last.end > last.start {
            let r = k0.push(last);
            assert(0 <= last.start && last.end <= media) by {
                assert(last == s[s.len() - 1]);
            }
            assert forall|i: int, j: int| 0 <= i < j < r.len() implies #[trigger] r[i].start
                <= #[trigger] r[j].start && r[i].end <= r[j].start by {
                if j == k0.len() {
                    assert(r[i] == k0[i]);
                    let k = choose|k: int| 0 <= k < init.len() && init[k] == k0[i];
                    assert(s[k].start <= s[s.len() - 1].start);
                    assert(s[k].end <= s[s.len() - 1].start);
                } else {
                    assert(r[i] == k0[i] && r[j] == k0[j]);
                }
            }
        }
    }
}

/// Every cue of `s` has text that is not blank.
pub open spec fn texts_shown(s: Seq<CueModel>) -> bool {
    forall|i: int| 0 <= i < s.len() ==> trim(#[trigger] s[i].text).len() > 0
}

proof fn lemma_kept_lines_start(ls: Seq<Seq<char>>)
    ensures
        forall|k: int|
            0 <= k < kept_lines(ls).len() ==> (#[trigger] kept_lines(ls)[k]).len() > 0
                && !is_white_space(kept_lines(ls)[k][0]),
    decreases ls.len(),
{
    if ls.len() > 0 {
        lemma_kept_lines_start(ls.drop_last());
        lemma_trim_edges(ls.last());
        let rest = kept_lines(ls.drop_last());
        assert forall|k: int| 0 <= k < kept_lines(ls).len() implies (#[trigger] kept_lines(ls)[k]).len() > 0
            && !is_white_space(kept_lines(ls)[k][0]) by {
            if k < rest.len() {
                assert(kept_lines(ls)[k] == rest[k]);
            }
        }
    }
}

proof fn lemma_join_start(parts: Seq<Seq<char>>, sep: Seq<char>)
    requires
        parts.len() > 0,
        parts[0].len() > 0,
    ensures
        join(parts, sep).len() > 0,
        join(parts, sep)[0] == parts[0][0],
    decreases parts.len(),
{
    if parts.len() > 1 {
        let init = parts.drop_last();
        assert(init[0] == parts[0]);
        lemma_join_start(init, sep);
    }
}

/// Normalised cue text that is not empty is not blank either.
proof fn lemma_normalized_shown(t: Seq<char>)
    requires
        normalized_text(t).len() > 0,
    ensures
        trim(normalized_text(t)).len() > 0,
{
    let kl = kept_lines(lines(t));
    lemma_kept_lines_start(lines(t));
    if kl.len() == 0 {
        assert(normalized_text(t).len() == 0);
    } else {
        assert(kl[0].len() > 0);
        lemma_join_start(kl, seq!['\n']);
        lemma_not_blank(normalized_text(t), 0);
    }
}

/// The parts a text is split into are none of them blank.
proof fn lemma_parts_shown(cs: Seq<char>, maximum: int, start: int)
    ensures
        forall|k: int|
            0 <= k < split_parts_from(cs, maximum, start).len() ==> trim(
                #[trigger] split_parts_from(cs, maximum, start)[k],
            ).len() > 0,
    decreases cs.len() - start,
{
    if !(start < 0 || start >= cs.len() || maximum < 1) {
        let end = part_end(cs, maximum, start);
        if !(end <= start || end > cs.len()) {
            lemma_skip_white(cs, end);
            let next = skip_white(cs, end);
            lemma_parts_shown(cs, maximum, next);
            let part = trim(cs.subrange(start, end));
            let rest = split_parts_from(cs, maximum, next);
            let head = if part.len() > 0 {
                seq![part]
            } else {
                seq![]
            };
            let all = split_parts_from(cs, maximum, start);
            assert(all == head + rest);
            if part.len() > 0 {
                lemma_trimmed_not_blank(cs.subrange(start, end));
            }
            assert forall|k: int| 0 <= k < all.len() implies trim(#[trigger] all[k]).len() > 0 by {
                if k < head.len() {
                    assert(all[k] == part);
                } else {
                    assert(all[k] == rest[k - head.len()]);
                }
            }
        }
    }
}

proof fn lemma_split_shown(s: Seq<CueModel>, policy: CuePolicy, media: int, min_duration: int, padding: int)
    requires
        texts_shown(s),
    ensures
        texts_shown(split_cues(s, policy, media, min_duration, padding)),
    decreases s.len(),
{
    if s.len() > 0 {
        let init = s.drop_last();
        assert forall|i: int| 0 <= i < init.len() implies trim(#[trigger] init[i].text).len() > 0 by {
            assert(init[i] == s[i]);
        }
        lemma_split_shown(init, policy, media, min_duration, padding);
        let c = s.last();
        assert(trim(c.text).len() > 0) by {
            assert(c == s[s.len() - 1]);
        }
        let parts = split_parts(c, policy);
        let w = split_width(c, policy);
        lemma_parts_shown(c.text, if w < 1 {
            1
        } else {
            w
        }, 0);
        let pieces = split_cue(c, policy);
        assert forall|i: int| 0 <= i < pieces.len() implies trim(#[trigger] pieces[i].text).len() > 0 by {
            if parts.len() == 1 {
            } else if pieces_fit(c, parts) {
                assert(pieces[i] == piece(c, parts, i));
            }
        }
        let padded_ones = padded_pieces(c, policy, media, min_duration, padding);
        let front = split_cues(init, policy, media, min_duration, padding);
        let all = split_cues(s, policy, media, min_duration, padding);
        assert(all == front + padded_ones);
        assert forall|i: int| 0 <= i < all.len() implies trim(#[trigger] all[i].text).len() > 0 by {
            if i < front.len() {
                assert(all[i] == front[i]);
            } else {
                assert(all[i] == padded_ones[i - front.len()]);
                assert(padded_ones[i - front.len()] == padded(pieces[i - front.len()], media, min_duration, padding));
            }
        }
    }
}

proof fn lemma_insert_shown(t: Seq<CueModel>, x: CueModel)
    requires
        texts_shown(t),
        trim(x.text).len() > 0,
    ensures
        texts_shown(insert_sorted(t, x)),
    decreases t.len(),
{
    if t.len() > 0 && !cue_key_le(t.last(), x) {
        let init = t.drop_last();
        assert forall|i: int| 0 <= i < init.len() implies trim(#[trigger] init[i].text).len() > 0 by {
            assert(init[i] == t[i]);
        }
        lemma_insert_shown(init, x);
        let r = insert_sorted(t, x);
        let front = insert_sorted(init, x);
        assert forall|i: int| 0 <= i < r.len() implies trim(#[trigger] r[i].text).len() > 0 by {
            if i < front.len() {
                assert(r[i] == front[i]);
            } else {
                assert(r[i] == t[t.len() - 1]);
            }
        }
    } else if t.len() > 0 {
        let r = insert_sorted(t, x);
        assert forall|i: int| 0 <= i < r.len() implies trim(#[trigger] r[i].text).len() > 0 by {
            if i < t.len() {
                assert(r[i] == t[i]);
            }
        }
    }
}

proof fn lemma_sort_shown(s: Seq<CueModel>)
    requires
        texts_shown(s),
    ensures
        texts_shown(sort_cues(s)),
    decreases s.len(),
{
    if s.len() > 0 {
        let init = s.drop_last();
        assert forall|i: int| 0 <= i < init.len() implies trim(#[trigger] init[i].text).len() > 0 by {
            assert(init[i] == s[i]);
        }
        lemma_sort_shown(init);
        assert(trim(s.last().text).len() > 0) by {
            assert(s.last() == s[s.len() - 1]);
        }
        lemma_insert_shown(sort_cues(init), s.last());
    }
}

proof fn lemma_normalized_cues_shown(s: Seq<CueModel>, media: int, min_duration: int)
    ensures
        texts_shown(normalized_cues(s, media, min_duration)),
    decreases s.len(),
{
    if s.len() > 0 {
        lemma_normalized_cues_shown(s.drop_last(), media, min_duration);
        let rest = normalized_cues(s.drop_last(), media, min_duration);
        let all = normalized_cues(s, media, min_duration);
        if normalize_cue(s.last(), media, min_duration) is Some {
            lemma_normalized_shown(s.last().text);
        }
        assert forall|i: int| 0 <= i < all.len() implies trim(#[trigger] all[i].text).len() > 0 by {
            if i < rest.len() {
                assert(all[i] == rest[i]);
            }
        }
    }
}

/// Optimised cues all have text that is not blank.
pub proof fn lemma_optimized_texts_shown(cues: Seq<CueModel>, media_duration: int, policy: CuePolicy)
    ensures
        texts_shown(optimized_cues(cues, media_duration, policy)),
{
    let media = media_span(media_duration);
    let min_duration = at_least_one(policy.min_duration_cs as int);
    let padding = if policy.end_padding_cs < 0 {
        0
    } else {
        policy.end_padding_cs as int
    };
    let n = normalized_cues(cues, media, min_duration);
    lemma_normalized_cues_shown(cues, media, min_duration);
    lemma_split_shown(n, policy, media, min_duration, padding);
    let sp = split_cues(n, policy, media, min_duration, padding);
    lemma_sort_shown(sp);
    let so = sort_cues(sp);
    let tr = trim_overlaps(so);
    assert forall|i: int| 0 <= i < tr.len() implies trim(#[trigger] tr[i].text).len() > 0 by {
        assert(tr[i] == trimmed(so, i));
    }
    lemma_kept_members(tr);
    let kp = kept_positive(tr);
    assert forall|i: int| 0 <= i < kp.len() implies trim(#[trigger] kp[i].text).len() > 0 by {
        let k = choose|k: int| 0 <= k < tr.len() && tr[k] == kp[i];
        assert(trim(tr[k].text).len() > 0);
    }
    let rn = renumbered(kp);
    assert(rn == optimized_cues(cues, media_duration, policy));
    assert forall|i: int| 0 <= i < rn.len() implies trim(#[trigger] rn[i].text).len() > 0 by {
        assert(rn[i].text == kp[i].text);
    }
}

/// The laws of `optimize_cues`: whatever the input, the result is a well-formed timeline.
pub proof fn lemma_optimized_timeline(cues: Seq<CueModel>, media_duration: int, policy: CuePolicy)
    requires
        media_duration <= i64::MAX,
    ensures
        timeline(optimized_cues(cues, media_duration, policy), media_span(media_duration)),
{
    let media = media_span(media_duration);
    let min_duration = at_least_one(policy.min_duration_cs as int);
    let padding = if policy.end_padding_cs < 0 {
        0
    } else {
        policy.end_padding_cs as int
    };
    let n = normalized_cues(cues, media, min_duration);
    lemma_normalized_inside(cues, media, min_duration);
    assert forall|i: int| 0 <= i < n.len() implies (#[trigger] n[i]).start <= i64::MAX by {
        assert(n[i].end <= media);
    }
    lemma_split_inside(n, policy, media, min_duration, padding);
    let sp = split_cues(n, policy, media, min_duration, padding);
    lemma_sort_keeps(sp, media);
    let so = sort_cues(sp);
    lemma_trim_overlaps(so, media);
    let tr = trim_overlaps(so);
    lemma_kept_keeps(tr, media);
    lemma_kept_members(tr);
    let kp = kept_positive(tr);
    let rn = renumbered(kp);
    assert(rn == optimized_cues(cues, media_duration, policy));
    assert forall|i: int| 0 <= i < rn.len() implies (#[trigger] rn[i]).start < rn[i].end by {
        assert(kp[i].start < kp[i].end);
    }
    assert forall|i: int| 0 <= i < rn.len() implies 0 <= #[trigger] rn[i].start && rn[i].end
        <= media by {
        assert(0 <= kp[i].start && kp[i].end <= media);
    }
    assert forall|i: int, j: int| 0 <= i < j < rn.len() implies #[trigger] rn[i].start
        <= #[trigger] rn[j].start by {
        assert(kp[i].start <= kp[j].start);
    }
    assert forall|i: int, j: int| 0 <= i < j < rn.len() implies #[trigger] rn[i].end
        <= #[trigger] rn[j].start by {
        assert(kp[i].end <= kp[j].start);
    }
}


proof fn lemma_insert_at(t: Seq<CueModel>, x: CueModel, p: int)
    requires
        0 <= p <= t.len(),
        forall|q: int| p <= q < t.len() ==> !cue_key_le(#[trigger] t[q], x),
        p == 0 || cue_key_le(t[p - 1], x),
    ensures
        insert_sorted(t, x) == t.insert(p, x),
    decreases t.len(),
{
    if t.len() == 0 {
        assert(t.insert(p, x) =~= seq![x]);
    } else if p == t.len() {
        assert(t.last() == t[p - 1]);
        assert(t.insert(p, x) =~= t.push(x));
    } else {
        assert(!cue_key_le(t[t.len() - 1], x));
        let init = t.drop_last();
        assert forall|q: int| p <= q < init.len() implies !cue_key_le(#[trigger] init[q], x) by {
            assert(init[q] == t[q]);
        }
        if p > 0 {
            assert(init[p - 1] == t[p - 1]);
        }
        lemma_insert_at(init, x, p);
        assert(init.insert(p, x).push(t.last()) =~= t.insert(p, x));
    }
}

fn clamp_between(v: i64, lo: i64, hi: i64) -> (r: i64)
    requires
        lo <= hi,
    ensures
        r == clamp_to(v as int, lo as int, hi as int),
{
    if v < lo {
        lo
    } else if v > hi {
        hi
    } else {
        v
    }
}

fn cue_orders_before(a: &SubtitleCue, b: &SubtitleCue) -> (r: bool)
    ensures
        r == cue_key_le(a@, b@),
{
    a.start_cs < b.start_cs || (a.start_cs == b.start_cs && (a.end_cs < b.end_cs || (a.end_cs
        == b.end_cs && a.index <= b.index)))
}

fn normalize_all(cues: &Vec<SubtitleCue>, media: i64, min_duration: i64) -> (r: Vec<SubtitleCue>)
    requires
        media >= 0,
    ensures
        cue_models(r@) == normalized_cues(cue_models(cues@), media as int, min_duration as int),
{
    let ghost input = cue_models(cues@);
    let mut normalized: Vec<SubtitleCue> = Vec::new();
    let mut i: usize = 0;
    while i < cues.len()
        invariant
            i <= cues.len(),
            input == cue_models(cues@),
            media >= 0,
            cue_models(normalized@) == normalized_cues(
                input.subrange(0, i as int),
                media as int,
                min_duration as int,
            ),
        decreases cues.len() - i,
    {
        let cue = &cues[i];
        let chars = chars_of(cue.text.as_str());
        let text = normalize_cue_chars(&chars);
        let start = clamp_between(cue.start_cs, 0, media);
        let clamped_end = clamp_between(cue.end_cs, 0, media);
        let end = if clamped_end <= start {
            let extended = saturating_add_i64(start, min_duration);
            if extended < media {
                extended
            } else {
                media
            }
        } else {
            clamped_end
        };
        let ghost before = cue_models(normalized@);
        proof {
            let prefix = input.subrange(0, i as int + 1);
            assert(prefix.drop_last() =~= input.subrange(0, i as int));
            assert(prefix.last() == cue@);
        }
        if text.len() > 0 && start < media && end > start {
            let kept = SubtitleCue {
                index: cue.index,
                start_cs: start,
                end_cs: end,
                text: string_of(&text),
            };
            normalized.push(kept);
            assert(cue_models(normalized@) =~= before.push(kept@));
        }
        i += 1;
    }
    assert(input.subrange(0, cues.len() as int) =~= input);
    normalized
}

fn split_all(
    normalized: &Vec<SubtitleCue>,
    policy: CuePolicy,
    media: i64,
    min_duration: i64,
    padding: i64,
) -> (r: Vec<SubtitleCue>)
    ensures
        cue_models(r@) == split_cues(
            cue_models(normalized@),
            policy,
            media as int,
            min_duration as int,
            padding as int,
        ),
{
    let ghost norm = cue_models(normalized@);
    let mut split: Vec<SubtitleCue> = Vec::new();
    let mut j: usize = 0;
    while j < normalized.len()
        invariant
            j <= normalized.len(),
            norm == cue_models(normalized@),
            cue_models(split@) == split_cues(
                norm.subrange(0, j as int),
                policy,
                media as int,
                min_duration as int,
                padding as int,
            ),
        decreases normalized.len() - j,
    {
        let pieces = split_long_cue(copy_subtitle_cue(&normalized[j]), policy);
        let ghost before = cue_models(split@);
        let ghost tail = padded_pieces(
            norm[j as int],
            policy,
            media as int,
            min_duration as int,
            padding as int,
        );
        let mut k: usize = 0;
        while k < pieces.len()
            invariant
                k <= pieces.len(),
                cue_models(pieces@) == split_cue(norm[j as int], policy),
                tail == cue_models(pieces@).map_values(
                    |p: CueModel| padded(p, media as int, min_duration as int, padding as int),
                ),
                cue_models(split@) == before + tail.subrange(0, k as int),
            decreases pieces.len() - k,
        {
            let p = &pieces[k];
            let minimum_end = saturating_add_i64(p.start_cs, min_duration);
            let extended = saturating_add_i64(p.end_cs, padding);
            let raised = if extended < minimum_end {
                minimum_end
            } else {
                extended
            };
            let end = if raised > media {
                media
            } else {
                raised
            };
            let next = SubtitleCue {
                index: p.index,
                start_cs: p.start_cs,
                end_cs: end,
                text: p.text.clone(),
            };
            assert(next@ == tail[k as int]);
            let ghost mid = cue_models(split@);
            split.push(next);
            k += 1;
            assert(cue_models(split@) =~= mid.push(next@));
            assert(tail.subrange(0, k as int) =~= tail.subrange(0, k - 1).push(tail[k - 1]));
        }
        proof {
            let prefix = norm.subrange(0, j as int + 1);
            assert(prefix.drop_last() =~= norm.subrange(0, j as int));
            assert(prefix.last() == norm[j as int]);
            assert(tail.subrange(0, pieces.len() as int) =~= tail);
        }
        j += 1;
    }
    assert(norm.subrange(0, normalized.len() as int) =~= norm);
    split
}

fn sort_all(split: &Vec<SubtitleCue>) -> (r: Vec<SubtitleCue>)
    ensures
        cue_models(r@) == sort_cues(cue_models(split@)),
{
    let ghost spl = cue_models(split@);
    let mut sorted: Vec<SubtitleCue> = Vec::new();
    let mut j: usize = 0;
    while j < split.len()
        invariant
            j <= split.len(),
            spl == cue_models(split@),
            cue_models(sorted@) == sort_cues(spl.subrange(0, j as int)),
        decreases split.len() - j,
    {
        let x = copy_subtitle_cue(&split[j]);
        let mut p = sorted.len();
        while p > 0 && !cue_orders_before(&sorted[p - 1], &x)
            invariant
                p <= sorted.len(),
                forall|q: int| p <= q < sorted.len() ==> !cue_key_le(#[trigger] sorted@[q]@, x@),
            decreases p,
        {
            p -= 1;
        }
        let ghost t = cue_models(sorted@);
        proof {
            if p > 0 {
                assert(t[p - 1] == sorted@[p - 1]@);
            }
            assert forall|q: int| p <= q < t.len() implies !cue_key_le(#[trigger] t[q], x@) by {
                assert(t[q] == sorted@[q]@);
            }
            lemma_insert_at(t, x@, p as int);
            let prefix = spl.subrange(0, j as int + 1);
            assert(prefix.drop_last() =~= spl.subrange(0, j as int));
            assert(prefix.last() == x@);
        }
        sorted.insert(p, x);
        assert(cue_models(sorted@) =~= t.insert(p as int, x@));
        j += 1;
    }
    assert(spl.subrange(0, split.len() as int) =~= spl);
    sorted
}

fn trim_all(sorted: &Vec<SubtitleCue>) -> (r: Vec<SubtitleCue>)
    ensures
        cue_models(r@) == trim_overlaps(cue_models(sorted@)),
{
    let ghost so = cue_models(sorted@);
    let mut trimmed_cues: Vec<SubtitleCue> = Vec::new();
    let mut j: usize = 0;
    while j < sorted.len()
        invariant
            j <= sorted.len(),
            so == cue_models(sorted@),
            cue_models(trimmed_cues@) == trim_overlaps(so).subrange(0, j as int),
        decreases sorted.len() - j,
    {
        let c = &sorted[j];
        let end = if j + 1 < sorted.len() && c.end_cs > sorted[j + 1].start_cs {
            sorted[j + 1].start_cs
        } else {
            c.end_cs
        };
        let next = SubtitleCue {
            index: c.index,
            start_cs: c.start_cs,
            end_cs: end,
            text: c.text.clone(),
        };
        assert(next@ == trimmed(so, j as int));
        let ghost before = cue_models(trimmed_cues@);
        trimmed_cues.push(next);
        assert(cue_models(trimmed_cues@) =~= before.push(next@));
        assert(trim_overlaps(so).subrange(0, j as int + 1) =~= trim_overlaps(so).subrange(
            0,
            j as int,
        ).push(trimmed(so, j as int)));
        j += 1;
    }
    assert(cue_models(trimmed_cues@) =~= trim_overlaps(so));
    trimmed_cues
}

fn keep_and_number(trimmed_cues: &Vec<SubtitleCue>) -> (r: Vec<SubtitleCue>)
    ensures
        cue_models(r@) == renumbered(kept_positive(cue_models(trimmed_cues@))),
{
    let ghost tr = cue_models(trimmed_cues@);
    let mut out: Vec<SubtitleCue> = Vec::new();
    let mut j: usize = 0;
    while j < trimmed_cues.len()
        invariant
            j <= trimmed_cues.len(),
            tr == cue_models(trimmed_cues@),
            out.len() <= j,
            cue_models(out@) == renumbered(kept_positive(tr.subrange(0, j as int))),
        decreases trimmed_cues.len() - j,
    {
        let c = &trimmed_cues[j];
        let ghost before = kept_positive(tr.subrange(0, j as int));
        proof {
            let prefix = tr.subrange(0, j as int + 1);
            assert(prefix.drop_last() =~= tr.subrange(0, j as int));
            assert(prefix.last() == c@);
        }
        if c.end_cs > c.start_cs {
            let next = SubtitleCue {
                index: out.len() + 1,
                start_cs: c.start_cs,
                end_cs: c.end_cs,
                text: c.text.clone(),
            };
            let ghost mid = cue_models(out@);
            assert(mid.len() == before.len());
            out.push(next);
            assert(cue_models(out@) =~= mid.push(next@));
            assert(cue_models(out@) =~= renumbered(before.push(c@)));
        }
        j += 1;
    }
    assert(tr.subrange(0, trimmed_cues.len() as int) =~= tr);
    out
}

/// Normalises cue text, clamps every cue into the media, splits over-long cues, pads
/// their ends, orders them, removes overlaps and numbers the result from one. No cue
/// of the result is blank, and a non-empty result passes `validate_cues`.
pub fn optimize_cues(cues: Vec<SubtitleCue>, media_duration_cs: i64, policy: CuePolicy) -> (r: Vec<
    SubtitleCue,
>)
    ensures
        cue_models(r@) == optimized_cues(cue_models(cues@), media_duration_cs as int, policy),
        timeline(cue_models(r@), media_span(media_duration_cs as int)),
        texts_shown(cue_models(r@)),
        r@.len() > 0 ==> cues_valid(cue_models(r@)),
{
    let media: i64 = if media_duration_cs < 0 {
        0
    } else {
        media_duration_cs
    };
    let min_duration: i64 = if policy.min_duration_cs < 1 {
        1
    } else {
        policy.min_duration_cs
    };
    let padding: i64 = if policy.end_padding_cs < 0 {
        0
    } else {
        policy.end_padding_cs
    };
    let normalized = normalize_all(&cues, media, min_duration);
    let split = split_all(&normalized, policy, media, min_duration, padding);
    let sorted = sort_all(&split);
    let trimmed_cues = trim_all(&sorted);
    let out = keep_and_number(&trimmed_cues);
    proof {
        lemma_optimized_timeline(cue_models(cues@), media_duration_cs as int, policy);
        lemma_optimized_texts_shown(cue_models(cues@), media_duration_cs as int, policy);
        let m = cue_models(out@);
        assert forall|i: int| 0 < i < m.len() implies (#[trigger] m[i]).start >= m[i - 1].end by {
            assert(m[i - 1].end <= m[i].start);
        }
    }
    out
}

} // verus!
