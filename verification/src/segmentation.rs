//! Cutting audio into transcription windows: fixed overlapping windows, and the
//! region arithmetic behind speech-based windows.
use vstd::prelude::*;

use std::ops::Range;

verus! {

/// Frame length, in milliseconds, of the loudness analysis.
pub const ANALYSIS_FRAME_MS: usize = 20;

/// Tuning of speech-based windows.
#[derive(Debug, Clone, Copy)]
pub struct SpeechWindowOptions {
    pub min_speech_ms: usize,
    pub min_silence_ms: usize,
    pub padding_ms: usize,
    pub max_window_seconds: usize,
    pub overlap_seconds: usize,
}

pub open spec fn sat_usize(v: int) -> int {
    if v > usize::MAX {
        usize::MAX as int
    } else {
        v
    }
}

/// Saturating multiplication on `usize`.
pub fn saturating_mul_usize(a: usize, b: usize) -> (r: usize)
    ensures
        r == sat_usize(a * b),
{
    if a == 0 {
        return 0;
    }
    if b > usize::MAX / a {
        assert(a * b > usize::MAX) by (nonlinear_arith)
            requires
                a >= 1,
                b > usize::MAX / a,
        ;
        usize::MAX
    } else {
        assert(a * b <= usize::MAX) by (nonlinear_arith)
            requires
                a >= 1,
                b <= usize::MAX / a,
        ;
        a * b
    }
}

/// The windows that `split_range` cuts from `start..end`, going on from `start`.
pub open spec fn windows_from(start: int, end: int, size: int, step: int) -> Seq<(int, int)>
    decreases (if start < end {
        end - start
    } else {
        0
    }),
{
    if start >= end || step < 1 || end > usize::MAX {
        seq![]
    } else {
        let window_end = if sat_usize(start + size) < end {
            sat_usize(start + size)
        } else {
            end
        };
        if window_end == end {
            seq![(start, window_end)]
        } else {
            seq![(start, window_end)] + windows_from(sat_usize(start + step), end, size, step)
        }
    }
}

/// The effective window size, overlap and step of a split.
pub open spec fn split_size(maximum_size: int) -> int {
    if maximum_size < 1 {
        1
    } else {
        maximum_size
    }
}

pub open spec fn split_overlap(maximum_size: int, overlap_size: int) -> int {
    let limit = split_size(maximum_size) - 1;
    if overlap_size < limit {
        overlap_size
    } else {
        limit
    }
}

pub open spec fn split_step(maximum_size: int, overlap_size: int) -> int {
    let step = split_size(maximum_size) - split_overlap(maximum_size, overlap_size);
    if step < 1 {
        1
    } else {
        step
    }
}

/// `start..end` cut into windows of at most `maximum_size`, each starting a step of
/// `maximum_size - overlap_size` after the last.
pub open spec fn split_windows(start: int, end: int, maximum_size: int, overlap_size: int) -> Seq<(int, int)> {
    windows_from(start, end, split_size(maximum_size), split_step(maximum_size, overlap_size))
}

/// Windows cut with a step no longer than their size start where asked, lie within
/// the region, are non-empty, and move forward: each starts after the one before and
/// ends no earlier.
pub proof fn lemma_windows_ordered(start: int, end: int, size: int, step: int)
    requires
        1 <= step <= size,
        0 <= start,
    ensures
        ({
            let w = windows_from(start, end, size, step);
            &&& w.len() > 0 ==> w[0].0 == start
            &&& forall|k: int| 0 <= k < w.len() ==> start <= (#[trigger] w[k]).0 < w[k].1 <= end
            &&& forall|k: int| 0 <= k < w.len() - 1 ==> (#[trigger] w[k]).0 < w[k + 1].0 && w[k].1 <= w[k + 1].1
        }),
    decreases (if start < end {
        end - start
    } else {
        0
    }),
{
    let w = windows_from(start, end, size, step);
    if !(start >= end || end > usize::MAX) {
        let we = if sat_usize(start + size) < end {
            sat_usize(start + size)
        } else {
            end
        };
        if we != end {
            let next = sat_usize(start + step);
            assert(next == start + step);
            lemma_windows_ordered(next, end, size, step);
            let rest = windows_from(next, end, size, step);
            assert(w == seq![(start, we)] + rest);
            assert(rest.len() > 0);
            assert(rest[0].1 >= we);
            assert forall|k: int| 0 <= k < w.len() implies start <= (#[trigger] w[k]).0 < w[k].1 <= end by {
                if k > 0 {
                    assert(w[k] == rest[k - 1]);
                }
            }
            assert forall|k: int| 0 <= k < w.len() - 1 implies (#[trigger] w[k]).0 < w[k + 1].0 && w[k].1 <= w[k
                + 1].1 by {
                assert(w[k + 1] == rest[k]);
                if k > 0 {
                    assert(w[k] == rest[k - 1]);
                }
            }
        }
    }
}

pub open spec fn bounds(ws: Seq<Range<usize>>) -> Seq<(int, int)> {
    ws.map_values(|r: Range<usize>| (r.start as int, r.end as int))
}

pub fn split_range(region: Range<usize>, maximum_size: usize, overlap_size: usize) -> (r: Vec<Range<usize>>)
    ensures
        bounds(r@) == split_windows(
            region.start as int,
            region.end as int,
            maximum_size as int,
            overlap_size as int,
        ),
{
    if region.start >= region.end {
        return Vec::new();
    }
    let size: usize = if maximum_size < 1 {
        1
    } else {
        maximum_size
    };
    let overlap: usize = if overlap_size < size - 1 {
        overlap_size
    } else {
        size - 1
    };
    let step: usize = if size - overlap < 1 {
        1
    } else {
        size - overlap
    };
    let ghost total = split_windows(region.start as int, region.end as int, maximum_size as int, overlap_size as int);
    let mut windows: Vec<Range<usize>> = Vec::new();
    let mut start = region.start;
    loop
        invariant_except_break
            step >= 1,
            start < region.end,
            total == bounds(windows@) + windows_from(start as int, region.end as int, size as int, step as int),
            size as int == split_size(maximum_size as int),
            step as int == split_step(maximum_size as int, overlap_size as int),
        ensures
            total == bounds(windows@),
        decreases region.end - start,
    {
        let end = if start.saturating_add(size) < region.end {
            start.saturating_add(size)
        } else {
            region.end
        };
        let ghost before = bounds(windows@);
        windows.push(start..end);
        assert(bounds(windows@) =~= before.push((start as int, end as int)));
        if end == region.end {
            assert(total =~= bounds(windows@));
            break;
        }
        let next = start.saturating_add(step);
        assert(total =~= bounds(windows@) + windows_from(next as int, region.end as int, size as int, step as int));
        start = next;
    }
    windows
}

/// Fixed windows of `window_seconds` overlapping by `overlap_seconds`, covering
/// `sample_count` samples.
pub fn fixed_windows(
    sample_count: usize,
    sample_rate: usize,
    window_seconds: usize,
    overlap_seconds: usize,
) -> (r: Vec<Range<usize>>)
    ensures
        ({
            let window = if sat_usize(sample_rate * window_seconds) < 1 {
                1
            } else {
                sat_usize(sample_rate * window_seconds)
            };
            let overlap = if sat_usize(sample_rate * overlap_seconds) < window - 1 {
                sat_usize(sample_rate * overlap_seconds)
            } else {
                window - 1
            };
            bounds(r@) == split_windows(0, sample_count as int, window, overlap)
        }),
{
    let raw_window = saturating_mul_usize(sample_rate, window_seconds);
    let window: usize = if raw_window < 1 {
        1
    } else {
        raw_window
    };
    let raw_overlap = saturating_mul_usize(sample_rate, overlap_seconds);
    let overlap: usize = if raw_overlap < window - 1 {
        raw_overlap
    } else {
        window - 1
    };
    split_range(0..sample_count, window, overlap)
}

/// Samples in `milliseconds` of audio at `sample_rate`.
pub fn milliseconds_to_samples(milliseconds: usize, sample_rate: usize) -> (r: usize)
    ensures
        r == sat_usize(sample_rate * milliseconds) / 1000,
{
    saturating_mul_usize(sample_rate, milliseconds) / 1000
}

/// Regions joined when the gap between them is at most `maximum_gap`.
pub open spec fn merged_regions(regions: Seq<(int, int)>, maximum_gap: int) -> Seq<(int, int)>
    decreases regions.len(),
{
    if regions.len() == 0 {
        seq![]
    } else {
        let merged = merged_regions(regions.drop_last(), maximum_gap);
        let r = regions.last();
        if merged.len() > 0 && (if r.0 > merged.last().1 {
            r.0 - merged.last().1
        } else {
            0
        }) <= maximum_gap {
            let p = merged.last();
            merged.update(
                merged.len() - 1,
                (
                    p.0,
                    if p.1 < r.1 {
                        r.1
                    } else {
                        p.1
                    },
                ),
            )
        } else {
            merged.push(r)
        }
    }
}

/// Joins each region to the one before it when the gap between them is small.
pub fn merge_nearby_regions(regions: Vec<Range<usize>>, maximum_gap_samples: usize) -> (r: Vec<Range<usize>>)
    ensures
        bounds(r@) == merged_regions(bounds(regions@), maximum_gap_samples as int),
{
    let ghost input = bounds(regions@);
    let mut merged: Vec<Range<usize>> = Vec::new();
    let mut i: usize = 0;
    while i < regions.len()
        invariant
            i <= regions.len(),
            input == bounds(regions@),
            bounds(merged@) == merged_regions(input.subrange(0, i as int), maximum_gap_samples as int),
        decreases regions.len() - i,
    {
        let region_start = regions[i].start;
        let region_end = regions[i].end;
        let ghost before = bounds(merged@);
        proof {
            let prefix = input.subrange(0, i as int + 1);
            assert(prefix.drop_last() =~= input.subrange(0, i as int));
            assert(prefix.last() == (region_start as int, region_end as int));
        }
        let n = merged.len();
        if n > 0 && region_start.saturating_sub(merged[n - 1].end) <= maximum_gap_samples {
            let previous_start = merged[n - 1].start;
            let previous_end = merged[n - 1].end;
            let end = if previous_end < region_end {
                region_end
            } else {
                previous_end
            };
            merged.set(n - 1, previous_start..end);
            assert(bounds(merged@) =~= before.update(before.len() - 1, (before.last().0, end as int)));
        } else {
            merged.push(region_start..region_end);
            assert(bounds(merged@) =~= before.push((region_start as int, region_end as int)));
        }
        i += 1;
    }
    assert(input.subrange(0, regions.len() as int) =~= input);
    merged
}

/// Runs of active frames as sample ranges: a run from frame `a` up to inactive frame
/// `b` covers `a * frame_size .. min(b * frame_size, sample_count)`; a run still
/// active at the end reaches `sample_count`.
pub open spec fn active_runs(active: Seq<bool>, frame_size: int, sample_count: int) -> Seq<(int, int)> {
    runs_from(active, frame_size, sample_count, 0, None)
}

pub open spec fn runs_from(
    active: Seq<bool>,
    frame_size: int,
    sample_count: int,
    index: int,
    open_start: Option<int>,
) -> Seq<(int, int)>
    decreases active.len() - index,
{
    if index >= active.len() || index < 0 {
        match open_start {
            Some(s) => seq![(s, sample_count)],
            None => seq![],
        }
    } else if active[index] {
        runs_from(
            active,
            frame_size,
            sample_count,
            index + 1,
            match open_start {
                Some(s) => Some(s),
                None => Some(sat_usize(index * frame_size)),
            },
        )
    } else {
        match open_start {
            Some(s) => {
                let end = if sat_usize(index * frame_size) < sample_count {
                    sat_usize(index * frame_size)
                } else {
                    sample_count
                };
                seq![(s, end)] + runs_from(active, frame_size, sample_count, index + 1, None)
            },
            None => runs_from(active, frame_size, sample_count, index + 1, None),
        }
    }
}

/// The sample ranges covered by runs of frames marked active.
pub fn active_frame_regions(active: &[bool], frame_size: usize, sample_count: usize) -> (r: Vec<
    Range<usize>,
>)
    ensures
        bounds(r@) == active_runs(active@, frame_size as int, sample_count as int),
{
    let ghost total = active_runs(active@, frame_size as int, sample_count as int);
    let mut regions: Vec<Range<usize>> = Vec::new();
    let mut open: Option<usize> = None;
    let mut i: usize = 0;
    while i < active.len()
        invariant
            i <= active.len(),
            total == bounds(regions@) + runs_from(
                active@,
                frame_size as int,
                sample_count as int,
                i as int,
                match open {
                    Some(s) => Some(s as int),
                    None => None,
                },
            ),
        decreases active.len() - i,
    {
        let offset = saturating_mul_usize(i, frame_size);
        if active[i] {
            if open.is_none() {
                open = Some(offset);
            }
        } else {
            match open {
                Some(s) => {
                    let end = if offset < sample_count {
                        offset
                    } else {
                        sample_count
                    };
                    let ghost before = bounds(regions@);
                    regions.push(s..end);
                    assert(bounds(regions@) =~= before.push((s as int, end as int)));
                    open = None;
                    assert(before + (seq![(s as int, end as int)] + runs_from(
                        active@,
                        frame_size as int,
                        sample_count as int,
                        i + 1,
                        None,
                    )) =~= bounds(regions@) + runs_from(
                        active@,
                        frame_size as int,
                        sample_count as int,
                        i + 1,
                        None,
                    ));
                },
                None => {},
            }
        }
        i += 1;
    }
    match open {
        Some(s) => {
            let ghost before = bounds(regions@);
            regions.push(s..sample_count);
            assert(bounds(regions@) =~= before.push((s as int, sample_count as int)));
        },
        None => {
            assert(bounds(regions@) + Seq::<(int, int)>::empty() =~= bounds(regions@));
        },
    }
    regions
}

} // verus!
