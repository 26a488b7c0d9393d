//! Reading back what is written: an SRT document rendered from cues parses to the
//! same cues, with the same indexes and millisecond timing and the text as rendered.
use vstd::prelude::*;

use crate::subtitles::{
    arrow, blocks_from, kept_lines, lemma_decimal_reads_back, lemma_padded_reads_back, lemma_timestamp_fields,
    lemma_first_occurrence, lemma_timestamp_round_trip, newline_normalized, normalized_text, split_once, srt_block,
    srt_cue_from, srt_cues_from, srt_document, srt_model, srt_models, stamp_text, strip_boms, timestamp_text,
    timestamp_value, CueModel, SrtCue,
};
use crate::text::{
    all_digits, ascii_digit, decimal, index_of, is_white_space, join, lemma_index_of, lemma_index_of_at,
    lemma_trim_edges, lines, occurs_at, parsed_unsigned, strip_cr, trim, trim_end, trim_start, zero_pad,
};

verus! {

/// Whether `c` occurs in `s`.
pub open spec fn has_char(s: Seq<char>, c: char) -> bool {
    exists|k: int| 0 <= k < s.len() && s[k] == c
}

/// Splitting into lines distributes over a first part that ends its last line.
pub proof fn lemma_lines_append(a: Seq<char>, b: Seq<char>)
    requires
        a.len() > 0 ==> a.last() == '\n',
    ensures
        lines(a + b) == lines(a) + lines(b),
    decreases a.len(),
{
    if a.len() == 0 {
        assert(a + b =~= b);
        assert(lines(a) =~= Seq::<Seq<char>>::empty());
        assert(lines(a) + lines(b) =~= lines(b));
    } else {
        let n = index_of(a, '\n');
        lemma_index_of(a, '\n');
        let s = a + b;
        assert forall|k: int| 0 <= k < n implies s[k] != '\n' by {
            assert(s[k] == a[k]);
        }
        assert(n < a.len()) by {
            if n == a.len() {
                assert(a[a.len() - 1] != '\n');
            }
        }
        lemma_index_of_at(s, '\n', n as int);
        let rest = a.subrange(n as int + 1, a.len() as int);
        assert(s.subrange(0, n as int) =~= a.subrange(0, n as int));
        assert(s.subrange(n as int + 1, s.len() as int) =~= rest + b);
        if rest.len() > 0 {
            assert(rest.last() == a.last());
        }
        lemma_lines_append(rest, b);
        assert(lines(s) == seq![strip_cr(a.subrange(0, n as int))] + lines(rest + b));
        assert(lines(a) == seq![strip_cr(a.subrange(0, n as int))] + lines(rest));
        assert(lines(s) =~= lines(a) + lines(b));
    }
}

/// One line ended by a line feed.
pub proof fn lemma_lines_line(x: Seq<char>)
    requires
        !has_char(x, '\n'),
        !has_char(x, '\r'),
    ensures
        lines(x + seq!['\n']) == seq![x],
{
    let s = x + seq!['\n'];
    assert forall|k: int| 0 <= k < x.len() implies s[k] != '\n' by {
        assert(s[k] == x[k]);
        if s[k] == '\n' {
            assert(has_char(x, '\n'));
        }
    }
    lemma_index_of_at(s, '\n', x.len() as int);
    assert(s.subrange(0, x.len() as int) =~= x);
    assert(s.subrange(x.len() as int + 1, s.len() as int) =~= Seq::<char>::empty());
    if x.len() > 0 {
        assert(x.last() != '\r') by {
            if x.last() == '\r' {
                assert(has_char(x, '\r'));
            }
        }
    }
    assert(strip_cr(x) == x);
    assert(lines(Seq::<char>::empty()) =~= Seq::<Seq<char>>::empty());
    assert(lines(s) == seq![strip_cr(s.subrange(0, x.len() as int))] + lines(s.subrange(x.len() as int + 1, s.len() as int)));
    assert(lines(s) =~= seq![x]);
}

/// Lines joined by line feeds and ended by one split back into those lines.
pub proof fn lemma_lines_join(ls: Seq<Seq<char>>)
    requires
        ls.len() > 0,
        forall|k: int| 0 <= k < ls.len() ==> !has_char(#[trigger] ls[k], '\n') && !has_char(ls[k], '\r'),
    ensures
        lines(join(ls, seq!['\n']) + seq!['\n']) == ls,
    decreases ls.len(),
{
    if ls.len() == 1 {
        assert(join(ls, seq!['\n']) == ls[0]);
        lemma_lines_line(ls[0]);
        assert(seq![ls[0]] =~= ls);
    } else {
        let front = ls.drop_last();
        lemma_lines_join(front);
        let a = join(front, seq!['\n']) + seq!['\n'];
        let b = ls.last() + seq!['\n'];
        assert(join(ls, seq!['\n']) + seq!['\n'] =~= a + b);
        lemma_lines_append(a, b);
        lemma_lines_line(ls.last());
        assert(front + seq![ls.last()] =~= ls);
    }
}

/// Grouping lines into blocks distributes over a first part that ends with a blank line.
pub proof fn lemma_blocks_append(l1: Seq<Seq<char>>, l2: Seq<Seq<char>>, current: Seq<Seq<char>>)
    requires
        l1.len() > 0,
        trim(l1.last()).len() == 0,
    ensures
        blocks_from(l1 + l2, current) == blocks_from(l1, current) + blocks_from(l2, seq![]),
    decreases l1.len(),
{
    let s = l1 + l2;
    assert(s[0] == l1[0]);
    assert(s.drop_first() =~= l1.drop_first() + l2);
    if l1.len() == 1 {
        assert(l1.drop_first() =~= Seq::<Seq<char>>::empty());
        assert(l1.drop_first() + l2 =~= l2);
        assert(blocks_from(l1.drop_first(), seq![]) =~= Seq::<Seq<Seq<char>>>::empty());
        let head = if current.len() > 0 {
            seq![current]
        } else {
            Seq::<Seq<Seq<char>>>::empty()
        };
        assert(blocks_from(l1, current) =~= head);
    } else {
        assert(l1.drop_first().last() == l1.last());
        if trim(l1[0]).len() == 0 {
            lemma_blocks_append(l1.drop_first(), l2, seq![]);
            let head = if current.len() > 0 {
                seq![current]
            } else {
                Seq::<Seq<Seq<char>>>::empty()
            };
            assert(blocks_from(s, current) == head + blocks_from(l1.drop_first() + l2, seq![]));
            assert(blocks_from(l1, current) == head + blocks_from(l1.drop_first(), seq![]));
            assert(blocks_from(s, current) =~= blocks_from(l1, current) + blocks_from(l2, seq![]));
        } else {
            lemma_blocks_append(l1.drop_first(), l2, current.push(l1[0]));
        }
    }
}

/// Non-blank lines followed by a blank line make one block.
pub proof fn lemma_blocks_run(p: Seq<Seq<char>>, current: Seq<Seq<char>>)
    requires
        current.len() + p.len() > 0,
        forall|k: int| 0 <= k < p.len() ==> trim(#[trigger] p[k]).len() > 0,
    ensures
        blocks_from(p + seq![Seq::<char>::empty()], current) == seq![current + p],
    decreases p.len(),
{
    let s = p + seq![Seq::<char>::empty()];
    if p.len() == 0 {
        assert(s =~= seq![Seq::<char>::empty()]);
        assert(s[0] == Seq::<char>::empty());
        assert(trim_start(Seq::<char>::empty()) == Seq::<char>::empty());
        assert(trim_end(Seq::<char>::empty()) == Seq::<char>::empty());
        assert(trim(s[0]).len() == 0);
        assert(s.drop_first() =~= Seq::<Seq<char>>::empty());
        assert(blocks_from(s.drop_first(), seq![]) =~= Seq::<Seq<Seq<char>>>::empty());
        assert(current + p =~= current);
        assert(blocks_from(s, current) =~= seq![current]);
    } else {
        assert(s[0] == p[0]);
        assert(s.drop_first() =~= p.drop_first() + seq![Seq::<char>::empty()]);
        if p.len() > 1 {
            assert forall|k: int| 0 <= k < p.drop_first().len() implies trim(#[trigger] p.drop_first()[k]).len() > 0 by {
                assert(p.drop_first()[k] == p[k + 1]);
            }
        }
        lemma_blocks_run(p.drop_first(), current.push(p[0]));
        assert(current.push(p[0]) + p.drop_first() =~= current + p);
    }
}

/// The lines of a text without carriage returns hold neither line feeds nor carriage
/// returns.
pub proof fn lemma_lines_clean(s: Seq<char>)
    requires
        !has_char(s, '\r'),
    ensures
        forall|k: int|
            0 <= k < lines(s).len() ==> !has_char(#[trigger] lines(s)[k], '\n') && !has_char(lines(s)[k], '\r'),
    decreases s.len(),
{
    if s.len() > 0 {
        let n = index_of(s, '\n');
        lemma_index_of(s, '\n');
        if n < s.len() {
            let first = strip_cr(s.subrange(0, n as int));
            let rest = s.subrange(n as int + 1, s.len() as int);
            assert(!has_char(rest, '\r')) by {
                if has_char(rest, '\r') {
                    let k = choose|k: int| 0 <= k < rest.len() && rest[k] == '\r';
                    assert(s[n + 1 + k] == '\r');
                }
            }
            lemma_lines_clean(rest);
            assert(!has_char(first, '\n') && !has_char(first, '\r')) by {
                if has_char(first, '\n') || has_char(first, '\r') {
                    let k = choose|k: int| 0 <= k < first.len() && (first[k] == '\n' || first[k] == '\r');
                    assert(first[k] == s[k]);
                }
            }
            let all = lines(s);
            assert(all == seq![first] + lines(rest));
            assert forall|k: int| 0 <= k < all.len() implies !has_char(#[trigger] all[k], '\n') && !has_char(all[k], '\r') by {
                if k > 0 {
                    assert(all[k] == lines(rest)[k - 1]);
                }
            }
        } else {
            assert(lines(s) == seq![s]);
            assert(!has_char(s, '\n')) by {
                if has_char(s, '\n') {
                    let k = choose|k: int| 0 <= k < s.len() && s[k] == '\n';
                }
            }
        }
    }
}

proof fn lemma_trim_start_clean(x: Seq<char>, c: char)
    requires
        !has_char(x, c),
    ensures
        !has_char(trim_start(x), c),
    decreases x.len(),
{
    if x.len() > 0 && is_white_space(x[0]) {
        assert(!has_char(x.drop_first(), c)) by {
            if has_char(x.drop_first(), c) {
                let k = choose|k: int| 0 <= k < x.drop_first().len() && x.drop_first()[k] == c;
                assert(x[k + 1] == c);
            }
        }
        lemma_trim_start_clean(x.drop_first(), c);
    }
}

proof fn lemma_trim_end_clean(x: Seq<char>, c: char)
    requires
        !has_char(x, c),
    ensures
        !has_char(trim_end(x), c),
    decreases x.len(),
{
    if x.len() > 0 && is_white_space(x.last()) {
        assert(!has_char(x.drop_last(), c)) by {
            if has_char(x.drop_last(), c) {
                let k = choose|k: int| 0 <= k < x.drop_last().len() && x.drop_last()[k] == c;
                assert(x[k] == c);
            }
        }
        lemma_trim_end_clean(x.drop_last(), c);
    }
}

/// Trimming keeps a character out.
pub proof fn lemma_trim_clean(x: Seq<char>, c: char)
    requires
        !has_char(x, c),
    ensures
        !has_char(trim(x), c),
{
    lemma_trim_start_clean(x, c);
    lemma_trim_end_clean(trim_start(x), c);
}

/// The kept lines of clean lines are clean, non-empty, and start and end with a
/// character that is not white space.
pub proof fn lemma_kept_clean(ls: Seq<Seq<char>>)
    requires
        forall|k: int| 0 <= k < ls.len() ==> !has_char(#[trigger] ls[k], '\n') && !has_char(ls[k], '\r'),
    ensures
        forall|k: int|
            0 <= k < kept_lines(ls).len() ==> {
                &&& !has_char(#[trigger] kept_lines(ls)[k], '\n')
                &&& !has_char(kept_lines(ls)[k], '\r')
                &&& kept_lines(ls)[k].len() > 0
                &&& !is_white_space(kept_lines(ls)[k][0])
                &&& !is_white_space(kept_lines(ls)[k].last())
                &&& trim(kept_lines(ls)[k]).len() > 0
            },
    decreases ls.len(),
{
    if ls.len() > 0 {
        let front = ls.drop_last();
        assert forall|k: int| 0 <= k < front.len() implies !has_char(#[trigger] front[k], '\n') && !has_char(front[k], '\r') by {
            assert(front[k] == ls[k]);
        }
        lemma_kept_clean(front);
        let t = trim(ls.last());
        if t.len() > 0 {
            lemma_trim_clean(ls.last(), '\n');
            lemma_trim_clean(ls.last(), '\r');
            lemma_trim_edges(ls.last());
            lemma_trim_edges(t);
            let kept = kept_lines(ls);
            assert(kept == kept_lines(front).push(t));
            assert forall|k: int| 0 <= k < kept.len() implies {
                &&& !has_char(#[trigger] kept[k], '\n')
                &&& !has_char(kept[k], '\r')
                &&& kept[k].len() > 0
                &&& !is_white_space(kept[k][0])
                &&& !is_white_space(kept[k].last())
                &&& trim(kept[k]).len() > 0
            } by {
                if k < kept.len() - 1 {
                    assert(kept[k] == kept_lines(front)[k]);
                } else {
                    assert(kept[k] == t);
                    crate::subtitles::lemma_trim_idempotent(ls.last());
                }
            }
        }
    }
}

/// The ends of a join of non-empty parts are the ends of its first and last parts.
pub proof fn lemma_join_edges(ls: Seq<Seq<char>>, sep: Seq<char>)
    requires
        ls.len() > 0,
        forall|k: int| 0 <= k < ls.len() ==> (#[trigger] ls[k]).len() > 0,
    ensures
        join(ls, sep).len() > 0,
        join(ls, sep)[0] == ls[0][0],
        join(ls, sep).last() == ls.last().last(),
    decreases ls.len(),
{
    if ls.len() > 1 {
        let front = ls.drop_last();
        assert forall|k: int| 0 <= k < front.len() implies (#[trigger] front[k]).len() > 0 by {
            assert(front[k] == ls[k]);
        }
        lemma_join_edges(front, sep);
        assert(front[0] == ls[0]);
        let j = join(ls, sep);
        assert(j == join(front, sep) + sep + ls.last());
        assert(j[0] == join(front, sep)[0]);
    }
}

/// A join keeps out a character that neither the parts nor the separator hold.
pub proof fn lemma_join_clean(ls: Seq<Seq<char>>, sep: Seq<char>, c: char)
    requires
        !has_char(sep, c),
        forall|k: int| 0 <= k < ls.len() ==> !has_char(#[trigger] ls[k], c),
    ensures
        !has_char(join(ls, sep), c),
    decreases ls.len(),
{
    if ls.len() == 1 {
        assert(!has_char(ls[0], c));
    } else if ls.len() > 1 {
        let front = ls.drop_last();
        assert forall|k: int| 0 <= k < front.len() implies !has_char(#[trigger] front[k], c) by {
            assert(front[k] == ls[k]);
        }
        lemma_join_clean(front, sep, c);
        let a = join(front, sep);
        let j = a + sep + ls.last();
        assert(!has_char(ls.last(), c));
        assert(!has_char(j, c)) by {
            if has_char(j, c) {
                let k = choose|k: int| 0 <= k < j.len() && j[k] == c;
                if k < a.len() {
                    assert(j[k] == a[k]);
                } else if k < a.len() + sep.len() {
                    assert(j[k] == sep[k - a.len()]);
                } else {
                    assert(j[k] == ls.last()[k - a.len() - sep.len()]);
                }
            }
        }
    }
}

/// A timestamp's text: digits, colons and a comma, starting and ending with a digit.
pub proof fn lemma_stamp_chars(t: int)
    requires
        0 <= t <= i64::MAX,
    ensures
        timestamp_text(t).len() > 0,
        ascii_digit(timestamp_text(t)[0]),
        ascii_digit(timestamp_text(t).last()),
        forall|k: int|
            0 <= k < timestamp_text(t).len() ==> ascii_digit(#[trigger] timestamp_text(t)[k]) || timestamp_text(t)[k]
                == ':' || timestamp_text(t)[k] == ',',
{
    lemma_timestamp_fields(t);
    let hv = (t / 3_600_000) as nat;
    let mv = ((t % 3_600_000) / 60_000) as nat;
    let sv = ((t % 60_000) / 1_000) as nat;
    let msv = (t % 1_000) as nat;
    lemma_padded_reads_back(hv, 2);
    lemma_padded_reads_back(mv, 2);
    lemma_padded_reads_back(sv, 2);
    lemma_padded_reads_back(msv, 3);
    let h = zero_pad(decimal(hv), 2);
    let m = zero_pad(decimal(mv), 2);
    let s = zero_pad(decimal(sv), 2);
    let ms = zero_pad(decimal(msv), 3);
    let x = timestamp_text(t);
    assert(x == stamp_text(hv, mv, sv, msv));
    assert(x =~= h + seq![':'] + m + seq![':'] + s + seq![','] + ms);
    assert(x[0] == h[0]);
    assert(x.last() == ms.last());
    assert forall|k: int| 0 <= k < x.len() implies ascii_digit(#[trigger] x[k]) || x[k] == ':' || x[k] == ',' by {
        let a = h.len() as int;
        let b = a + 1 + m.len();
        let c = b + 1 + s.len();
        if k < a {
            assert(x[k] == h[k]);
        } else if a < k < b {
            assert(x[k] == m[k - a - 1]);
        } else if b < k < c {
            assert(x[k] == s[k - b - 1]);
        } else if k > c {
            assert(x[k] == ms[k - c - 1]);
        }
    }
}

/// A cue that renders to a block that parses back: an index and times in range, an
/// end not before the start, no carriage return in the text, and some text left once
/// it is normalised.
#[verifier::opaque]
pub open spec fn renderable(c: CueModel) -> bool {
    &&& 0 <= c.index <= usize::MAX
    &&& 0 <= c.start <= c.end <= i64::MAX
    &&& !has_char(c.text, '\r')
    &&& normalized_text(c.text).len() > 0
}

/// A cue as it reads back: the text normalised, everything else unchanged.
pub open spec fn rendered_cue(c: CueModel) -> CueModel {
    CueModel { index: c.index, start: c.start, end: c.end, text: normalized_text(c.text) }
}

pub open spec fn timing_line(c: CueModel) -> Seq<char> {
    timestamp_text(c.start) + arrow() + timestamp_text(c.end)
}

/// The non-blank lines of a cue's block.
#[verifier::opaque]
pub open spec fn block_run(c: CueModel) -> Seq<Seq<char>> {
    seq![decimal(c.index as nat), timing_line(c)] + kept_lines(lines(c.text))
}

/// Facts about the timing line: where the arrow is and which characters occur.
proof fn lemma_timing_line(c: CueModel)
    requires
        renderable(c),
    ensures
        ({
            let t = timing_line(c);
            let a = timestamp_text(c.start);
            let b = timestamp_text(c.end);
            &&& t.len() > 0
            &&& ascii_digit(t[0])
            &&& ascii_digit(t.last())
            &&& !has_char(t, '\n')
            &&& !has_char(t, '\r')
            &&& split_once(t, seq!['-', '-', '>']) == Some((a + seq![' '], seq![' '] + b))
        }),
{
    reveal(renderable);
    let t = timing_line(c);
    let a = timestamp_text(c.start);
    let b = timestamp_text(c.end);
    lemma_stamp_chars(c.start);
    lemma_stamp_chars(c.end);
    assert(t =~= a + seq![' ', '-', '-', '>', ' '] + b);
    assert(t[0] == a[0]);
    assert(t.last() == b.last());
    assert forall|k: int| 0 <= k < t.len() implies t[k] != '\n' && t[k] != '\r' && (k <= a.len() ==> t[k] != '-') by {
        if k < a.len() {
            assert(t[k] == a[k]);
        } else if k >= a.len() + 5 {
            assert(t[k] == b[k - a.len() - 5]);
        }
    }
    let pattern = seq!['-', '-', '>'];
    let at: int = a.len() as int + 1;
    assert(t.subrange(at, at + 3) =~= pattern);
    assert forall|k: int| 0 <= k < at implies !occurs_at(t, pattern, k) by {
        if occurs_at(t, pattern, k) {
            assert(t.subrange(k, k + 3)[0] == t[k]);
        }
    }
    lemma_first_occurrence(t, pattern, 0, at);
    assert(t.subrange(0, at) =~= a + seq![' ']);
    assert(t.subrange(at + 3, t.len() as int) =~= seq![' '] + b);
}

/// A timestamp with a space on one side reads as the timestamp.
proof fn lemma_spaced_stamp(t: int)
    requires
        0 <= t <= i64::MAX,
    ensures
        timestamp_value(timestamp_text(t) + seq![' ']) == Some(t),
        timestamp_value(seq![' '] + timestamp_text(t)) == Some(t),
{
    let x = timestamp_text(t);
    lemma_stamp_chars(t);
    lemma_timestamp_round_trip(t);
    reveal(is_white_space);
    let r = x + seq![' '];
    assert(trim_start(r) == r);
    assert(r.drop_last() =~= x);
    assert(trim_end(r) == trim_end(x));
    assert(trim_end(x) == x);
    assert(trim_start(x) == x);
    assert(trim(r) == trim(x));
    let l = seq![' '] + x;
    assert(l.drop_first() =~= x);
    assert(trim_start(l) == trim_start(x));
    assert(trim(l) == trim(x));
}

/// A cue's block lines parse back as the cue with its text normalised.
pub proof fn lemma_block_cue(c: CueModel)
    requires
        renderable(c),
    ensures
        srt_cue_from(block_run(c)) == Some(rendered_cue(c)),
{
    reveal(renderable);
    reveal(block_run);
    reveal(srt_cue_from);
    reveal(is_white_space);
    let run = block_run(c);
    let dec = decimal(c.index as nat);
    lemma_decimal_reads_back(c.index as nat);
    assert(run[0] == dec);
    assert(trim_start(dec) == dec);
    assert(trim_end(dec) == dec);
    assert(parsed_unsigned(trim(run[0]), usize::MAX as int) == Some(c.index));
    lemma_timing_line(c);
    let t = timing_line(c);
    assert(run[1] == t);
    assert(trim_start(t) == t);
    assert(trim_end(t) == t);
    lemma_spaced_stamp(c.start);
    lemma_spaced_stamp(c.end);
    let kept = kept_lines(lines(c.text));
    assert(run.subrange(2, run.len() as int) =~= kept);
    let n = normalized_text(c.text);
    assert(n == join(kept, seq!['\n']));
    lemma_lines_clean(c.text);
    lemma_kept_clean(lines(c.text));
    assert(kept.len() > 0) by {
        if kept.len() == 0 {
            assert(join(kept, seq!['\n']).len() == 0);
        }
    }
    assert forall|k: int| 0 <= k < kept.len() implies (#[trigger] kept[k]).len() > 0 by {}
    lemma_join_edges(kept, seq!['\n']);
    assert(!is_white_space(n[0]));
    assert(!is_white_space(n.last()));
    assert(trim_start(n) == n);
    assert(trim_end(n) == n);
}

/// The pieces of a cue's block are clean: the index and timing lines and the kept
/// text lines hold no line feed or carriage return, and there is at least one text line.
proof fn lemma_block_pieces(c: CueModel)
    requires
        renderable(c),
    ensures
        !has_char(decimal(c.index as nat), '\n'),
        !has_char(decimal(c.index as nat), '\r'),
        decimal(c.index as nat).len() > 0,
        ascii_digit(decimal(c.index as nat)[0]),
        trim(decimal(c.index as nat)).len() > 0,
        trim(timing_line(c)).len() > 0,
        !has_char(timing_line(c), '\n'),
        !has_char(timing_line(c), '\r'),
        kept_lines(lines(c.text)).len() > 0,
        normalized_text(c.text) == join(kept_lines(lines(c.text)), seq!['\n']),
        !has_char(normalized_text(c.text), '\r'),
        forall|k: int|
            0 <= k < kept_lines(lines(c.text)).len() ==> {
                &&& !has_char(#[trigger] kept_lines(lines(c.text))[k], '\n')
                &&& !has_char(kept_lines(lines(c.text))[k], '\r')
                &&& trim(kept_lines(lines(c.text))[k]).len() > 0
            },
{
    reveal(renderable);
    reveal(is_white_space);
    let dec = decimal(c.index as nat);
    lemma_decimal_reads_back(c.index as nat);
    let t = timing_line(c);
    lemma_timing_line(c);
    let kept = kept_lines(lines(c.text));
    lemma_lines_clean(c.text);
    lemma_kept_clean(lines(c.text));
    assert(kept.len() > 0) by {
        if kept.len() == 0 {
            assert(join(kept, seq!['\n']).len() == 0);
        }
    }
    assert(!has_char(dec, '\n') && !has_char(dec, '\r')) by {
        if has_char(dec, '\n') || has_char(dec, '\r') {
            let k = choose|k: int| 0 <= k < dec.len() && (dec[k] == '\n' || dec[k] == '\r');
            assert(ascii_digit(dec[k]));
        }
    }
    assert(trim_start(dec) == dec);
    assert(trim_end(dec) == dec);
    assert(trim_start(t) == t);
    assert(trim_end(t) == t);
    assert(!has_char(seq!['\n'], '\r')) by {
        if has_char(seq!['\n'], '\r') {
            let k = choose|k: int| 0 <= k < 1 && seq!['\n'][k] == '\r';
        }
    }
    assert forall|k: int| 0 <= k < kept.len() implies !has_char(#[trigger] kept[k], '\r') by {}
    lemma_join_clean(kept, seq!['\n'], '\r');
}

/// A cue's block holds no carriage return, starts with a digit and ends its last line.
proof fn lemma_block_clean(c: CueModel)
    requires
        renderable(c),
    ensures
        !has_char(srt_block(c), '\r'),
        ascii_digit(srt_block(c)[0]),
        srt_block(c).last() == '\n',
{
    reveal(renderable);
    lemma_block_pieces(c);
    let dec = decimal(c.index as nat);
    let t = timing_line(c);
    let n = normalized_text(c.text);
    let a = dec + seq!['\n'];
    let b = t + seq!['\n'];
    let cc = n + seq!['\n'];
    let block = srt_block(c);
    assert(block =~= a + (b + (cc + seq!['\n'])));
    assert(!has_char(block, '\r')) by {
        if has_char(block, '\r') {
            let k = choose|k: int| 0 <= k < block.len() && block[k] == '\r';
            let x = a.len() as int;
            let y = x + b.len();
            if k < dec.len() {
                assert(block[k] == dec[k]);
            } else if x <= k < x + t.len() {
                assert(block[k] == t[k - x]);
            } else if y <= k < y + n.len() {
                assert(block[k] == n[k - y]);
            }
        }
    }
    assert(block[0] == dec[0]);
}

/// Two lines, then joined lines, then a blank line split back into those lines.
proof fn lemma_lines_of_block(x: Seq<char>, y: Seq<char>, ks: Seq<Seq<char>>)
    requires
        !has_char(x, '\n') && !has_char(x, '\r'),
        !has_char(y, '\n') && !has_char(y, '\r'),
        ks.len() > 0,
        forall|k: int| 0 <= k < ks.len() ==> !has_char(#[trigger] ks[k], '\n') && !has_char(ks[k], '\r'),
    ensures
        lines(x + seq!['\n'] + y + seq!['\n'] + join(ks, seq!['\n']) + seq!['\n', '\n']) == seq![x, y] + ks
            + seq![Seq::<char>::empty()],
{
    let a = x + seq!['\n'];
    let b = y + seq!['\n'];
    let cc = join(ks, seq!['\n']) + seq!['\n'];
    let d = seq!['\n'];
    let empty = Seq::<char>::empty();
    assert(x + seq!['\n'] + y + seq!['\n'] + join(ks, seq!['\n']) + seq!['\n', '\n'] =~= a + (b + (cc + d)));
    lemma_lines_join(ks);
    assert(!has_char(empty, '\n') && !has_char(empty, '\r'));
    lemma_lines_line(empty);
    assert(empty + seq!['\n'] =~= d);
    lemma_lines_append(cc, d);
    lemma_lines_line(y);
    lemma_lines_append(b, cc + d);
    lemma_lines_line(x);
    lemma_lines_append(a, b + (cc + d));
    assert(seq![x] + (seq![y] + (ks + seq![empty])) =~= seq![x, y] + ks + seq![empty]);
}

/// The lines of a cue's block: its non-blank lines, then one blank line.
#[verifier::rlimit(50)]
pub proof fn lemma_block_lines(c: CueModel)
    requires
        renderable(c),
    ensures
        lines(srt_block(c)) == block_run(c) + seq![Seq::<char>::empty()],
        block_run(c).len() > 0,
        forall|k: int| 0 <= k < block_run(c).len() ==> trim(#[trigger] block_run(c)[k]).len() > 0,
{
    reveal(block_run);
    lemma_block_pieces(c);
    let dec = decimal(c.index as nat);
    let t = timing_line(c);
    let kept = kept_lines(lines(c.text));
    lemma_lines_of_block(dec, t, kept);
    assert(srt_block(c) =~= dec + seq!['\n'] + t + seq!['\n'] + join(kept, seq!['\n']) + seq!['\n', '\n']);
    assert(seq![dec, t] + kept =~= block_run(c));
    assert forall|k: int| 0 <= k < block_run(c).len() implies trim(#[trigger] block_run(c)[k]).len() > 0 by {
        if k >= 2 {
            assert(block_run(c)[k] == kept[k - 2]);
        }
    }
}

/// The lines of a document: each block's non-blank lines followed by a blank line.
pub open spec fn document_lines(cues: Seq<CueModel>) -> Seq<Seq<char>>
    decreases cues.len(),
{
    if cues.len() == 0 {
        seq![]
    } else {
        document_lines(cues.drop_last()) + block_run(cues.last()) + seq![Seq::<char>::empty()]
    }
}

/// Replacing line endings leaves a text without carriage returns as it is.
proof fn lemma_newlines_kept(s: Seq<char>)
    requires
        !has_char(s, '\r'),
    ensures
        newline_normalized(s) == s,
    decreases s.len(),
{
    if s.len() > 0 {
        assert(s[0] != '\r') by {
            if s[0] == '\r' {
                assert(has_char(s, '\r'));
            }
        }
        assert(!has_char(s.drop_first(), '\r')) by {
            if has_char(s.drop_first(), '\r') {
                let k = choose|k: int| 0 <= k < s.drop_first().len() && s.drop_first()[k] == '\r';
                assert(s[k + 1] == '\r');
            }
        }
        lemma_newlines_kept(s.drop_first());
        assert(seq![s[0]] + s.drop_first() =~= s);
    }
}

/// A rendered document: its lines, that it ends its last line, that it has no carriage
/// return, and that it starts with a digit.
proof fn lemma_document(cues: Seq<CueModel>)
    requires
        forall|k: int| 0 <= k < cues.len() ==> renderable(#[trigger] cues[k]),
    ensures
        lines(srt_document(cues)) == document_lines(cues),
        srt_document(cues).len() > 0 ==> srt_document(cues).last() == '\n',
        !has_char(srt_document(cues), '\r'),
        srt_document(cues).len() > 0 ==> ascii_digit(srt_document(cues)[0]),
        cues.len() > 0 ==> srt_document(cues).len() > 0,
    decreases cues.len(),
{
    if cues.len() > 0 {
        let front = cues.drop_last();
        assert forall|k: int| 0 <= k < front.len() implies renderable(#[trigger] front[k]) by {
            assert(front[k] == cues[k]);
        }
        lemma_document(front);
        let c = cues.last();
        lemma_block_lines(c);
        lemma_block_clean(c);
        let a = srt_document(front);
        let b = srt_block(c);
        assert(srt_document(cues) == a + b);
        lemma_lines_append(a, b);
        assert(lines(a + b) =~= document_lines(cues));
        assert((a + b).last() == b.last());
        if a.len() > 0 {
            assert((a + b)[0] == a[0]);
        } else {
            assert((a + b)[0] == b[0]);
        }
        assert(!has_char(a + b, '\r')) by {
            if has_char(a + b, '\r') {
                let k = choose|k: int| 0 <= k < (a + b).len() && (a + b)[k] == '\r';
                if k < a.len() {
                    assert((a + b)[k] == a[k]);
                } else {
                    assert((a + b)[k] == b[k - a.len()]);
                }
            }
        }
    }
}

/// Adding a run of non-blank lines and a blank line adds one block.
proof fn lemma_blocks_step(head: Seq<Seq<char>>, run: Seq<Seq<char>>)
    requires
        head.len() > 0 ==> trim(head.last()).len() == 0,
        run.len() > 0,
        forall|k: int| 0 <= k < run.len() ==> trim(#[trigger] run[k]).len() > 0,
    ensures
        blocks_from(head + (run + seq![Seq::<char>::empty()]), seq![]) == blocks_from(head, seq![]) + seq![run],
{
    let tail = run + seq![Seq::<char>::empty()];
    lemma_blocks_run(run, seq![]);
    assert(Seq::<Seq<char>>::empty() + run =~= run);
    if head.len() == 0 {
        assert(head + tail =~= tail);
        assert(blocks_from(head, seq![]) =~= Seq::<Seq<Seq<char>>>::empty());
        assert(blocks_from(head, seq![]) + seq![run] =~= seq![run]);
    } else {
        lemma_blocks_append(head, tail, seq![]);
    }
}

/// A document's lines end with a blank line.
proof fn lemma_document_lines_end(cues: Seq<CueModel>)
    ensures
        document_lines(cues).len() > 0 ==> trim(document_lines(cues).last()).len() == 0,
        cues.len() > 0 ==> document_lines(cues) == document_lines(cues.drop_last()) + (block_run(cues.last())
            + seq![Seq::<char>::empty()]),
{
    if cues.len() > 0 {
        let head = document_lines(cues.drop_last());
        let tail = block_run(cues.last()) + seq![Seq::<char>::empty()];
        assert(document_lines(cues) =~= head + tail);
        assert(document_lines(cues).last() == Seq::<char>::empty());
        assert(trim_start(Seq::<char>::empty()) == Seq::<char>::empty());
        assert(trim_end(Seq::<char>::empty()) == Seq::<char>::empty());
    }
}

/// The blocks of a document's lines are the blocks' non-blank lines, one per cue.
#[verifier::rlimit(50)]
proof fn lemma_document_blocks(cues: Seq<CueModel>)
    requires
        forall|k: int| 0 <= k < cues.len() ==> renderable(#[trigger] cues[k]),
    ensures
        blocks_from(document_lines(cues), seq![]) == cues.map_values(|c: CueModel| block_run(c)),
    decreases cues.len(),
{
    if cues.len() == 0 {
        assert(blocks_from(document_lines(cues), seq![]) =~= Seq::<Seq<Seq<char>>>::empty());
        assert(cues.map_values(|c: CueModel| block_run(c)) =~= Seq::<Seq<Seq<char>>>::empty());
    } else {
        let front = cues.drop_last();
        assert forall|k: int| 0 <= k < front.len() implies renderable(#[trigger] front[k]) by {
            assert(front[k] == cues[k]);
        }
        lemma_document_blocks(front);
        let c = cues.last();
        lemma_block_lines(c);
        lemma_document_lines_end(front);
        lemma_document_lines_end(cues);
        let head = document_lines(front);
        let run = block_run(c);
        lemma_blocks_step(head, run);
        let runs = cues.map_values(|c: CueModel| block_run(c));
        assert(runs =~= front.map_values(|c: CueModel| block_run(c)) + seq![run]);
    }
}

/// Parsing the blocks of rendered cues gives the cues as they read back.
proof fn lemma_parsed_blocks(cues: Seq<CueModel>)
    requires
        forall|k: int| 0 <= k < cues.len() ==> renderable(#[trigger] cues[k]),
    ensures
        srt_cues_from(cues.map_values(|c: CueModel| block_run(c))) == Some(cues.map_values(|c: CueModel| rendered_cue(c))),
    decreases cues.len(),
{
    let runs = cues.map_values(|c: CueModel| block_run(c));
    if cues.len() == 0 {
        assert(runs =~= Seq::<Seq<Seq<char>>>::empty());
        assert(cues.map_values(|c: CueModel| rendered_cue(c)) =~= Seq::<CueModel>::empty());
    } else {
        let front = cues.drop_last();
        assert forall|k: int| 0 <= k < front.len() implies renderable(#[trigger] front[k]) by {
            assert(front[k] == cues[k]);
        }
        lemma_parsed_blocks(front);
        lemma_block_cue(cues.last());
        assert(runs.drop_last() =~= front.map_values(|c: CueModel| block_run(c)));
        assert(runs.last() == block_run(cues.last()));
        assert(cues.map_values(|c: CueModel| rendered_cue(c)) =~= front.map_values(|c: CueModel| rendered_cue(c)).push(
            rendered_cue(cues.last()),
        ));
    }
}

/// What `render_srt` writes, `parse_srt` reads back: every cue with its index and
/// millisecond timing unchanged and its text as rendered (each line trimmed, blank
/// lines dropped). This holds for cues whose index fits in `usize`, whose times are
/// non-negative with the end not before the start, whose text holds no carriage return,
/// and whose text is not blank.
pub proof fn lemma_srt_round_trip(cues: Seq<CueModel>)
    requires
        forall|k: int| 0 <= k < cues.len() ==> renderable(#[trigger] cues[k]),
    ensures
        srt_model(srt_document(cues)) == Some(cues.map_values(|c: CueModel| rendered_cue(c))),
{
    let doc = srt_document(cues);
    lemma_document(cues);
    assert(strip_boms(doc) == doc) by {
        if doc.len() > 0 {
            assert(doc[0] != '\u{feff}');
        }
    }
    lemma_newlines_kept(doc);
    lemma_document_blocks(cues);
    lemma_parsed_blocks(cues);
}

/// What `render_srt` writes, `parse_srt` reads back exactly: indexes, millisecond
/// timestamps and text, for cues with non-negative times (the end not before the
/// start) and text that is already in the form a reader gives back (lines trimmed,
/// none blank, no carriage return, not empty).
pub proof fn lemma_srt_cues_round_trip(cues: Seq<SrtCue>)
    requires
        forall|k: int|
            0 <= k < cues.len() ==> {
                &&& 0 <= (#[trigger] cues[k]).start_ms <= cues[k].end_ms
                &&& !has_char(cues[k].text@, '\r')
                &&& cues[k].text@.len() > 0
                &&& normalized_text(cues[k].text@) == cues[k].text@
            },
    ensures
        srt_model(srt_document(srt_models(cues))) == Some(srt_models(cues)),
{
    let models = srt_models(cues);
    assert forall|k: int| 0 <= k < models.len() implies renderable(#[trigger] models[k]) by {
        reveal(renderable);
        assert(models[k] == cues[k]@);
    }
    lemma_srt_round_trip(models);
    let read = models.map_values(|c: CueModel| rendered_cue(c));
    assert forall|k: int| 0 <= k < models.len() implies #[trigger] read[k] == models[k] by {
        assert(models[k] == cues[k]@);
    }
    assert(read =~= models);
}

} // verus!
