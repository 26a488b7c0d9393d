//! Guarding transcript cleanup: an edit that changes most of a cue is a rewrite,
//! not a correction.
use vstd::prelude::*;

use crate::text::chars_of;
use crate::transcribe::{boundary_key, boundary_text_key};

verus! {

broadcast use vstd::string::group_string_axioms;

/// The Levenshtein distance between two character sequences.
pub open spec fn levenshtein(a: Seq<char>, b: Seq<char>) -> nat
    decreases a.len() + b.len(),
{
    if a.len() == 0 {
        b.len()
    } else if b.len() == 0 {
        a.len()
    } else {
        let deletion = levenshtein(a.drop_last(), b) + 1;
        let insertion = levenshtein(a, b.drop_last()) + 1;
        let substitution = levenshtein(a.drop_last(), b.drop_last()) + (if a.last() == b.last() {
            0nat
        } else {
            1nat
        });
        let smaller = if deletion < insertion {
            deletion
        } else {
            insertion
        };
        if smaller < substitution {
            smaller
        } else {
            substitution
        }
    }
}

pub proof fn lemma_levenshtein_bound(a: Seq<char>, b: Seq<char>)
    ensures
        levenshtein(a, b) <= (if a.len() < b.len() {
            b.len()
        } else {
            a.len()
        }),
    decreases a.len() + b.len(),
{
    if a.len() > 0 && b.len() > 0 {
        lemma_levenshtein_bound(a.drop_last(), b.drop_last());
    }
}

/// The edit distance, by the two-row dynamic programme.
pub fn edit_distance(left: &[char], right: &[char]) -> (r: usize)
    requires
        left.len() < usize::MAX,
        right.len() < usize::MAX,
    ensures
        r == levenshtein(left@, right@),
{
    let n = right.len();
    let mut previous: Vec<usize> = Vec::new();
    let mut j: usize = 0;
    while j <= n
        invariant
            j <= n + 1,
            n == right.len(),
            n < usize::MAX,
            previous@.len() == j,
            forall|k: int| 0 <= k < j ==> previous@[k] == levenshtein(
                left@.subrange(0, 0),
                right@.subrange(0, k),
            ),
        decreases n + 1 - j,
    {
        previous.push(j);
        j += 1;
    }
    let mut i: usize = 0;
    while i < left.len()
        invariant
            i <= left.len(),
            n == right.len(),
            n < usize::MAX,
            left.len() < usize::MAX,
            previous@.len() == n + 1,
            forall|k: int| 0 <= k <= n ==> previous@[k] == levenshtein(
                left@.subrange(0, i as int),
                right@.subrange(0, k),
            ),
        decreases left.len() - i,
    {
        let ghost a = left@.subrange(0, i as int + 1);
        assert(a.drop_last() =~= left@.subrange(0, i as int));
        let mut current: Vec<usize> = Vec::new();
        proof {
            assert(a.len() > 0);
            assert(levenshtein(a, right@.subrange(0, 0)) == a.len());
        }
        current.push(i + 1);
        let mut k: usize = 0;
        while k < n
            invariant
                k <= n,
                n == right.len(),
                n < usize::MAX,
                i < left.len(),
                left.len() < usize::MAX,
                a == left@.subrange(0, i as int + 1),
                a.drop_last() == left@.subrange(0, i as int),
                previous@.len() == n + 1,
                forall|q: int| 0 <= q <= n ==> previous@[q] == levenshtein(a.drop_last(), right@.subrange(0, q)),
                current@.len() == k + 1,
                forall|q: int| 0 <= q <= k ==> current@[q] == levenshtein(a, right@.subrange(0, q)),
            decreases n - k,
        {
            let ghost b = right@.subrange(0, k as int + 1);
            assert(b.drop_last() =~= right@.subrange(0, k as int));
            proof {
                lemma_levenshtein_bound(a, right@.subrange(0, k as int));
                lemma_levenshtein_bound(a.drop_last(), b);
                lemma_levenshtein_bound(a.drop_last(), b.drop_last());
            }
            let differ: usize = if left[i] != right[k] {
                1
            } else {
                0
            };
            let substitution = previous[k] + differ;
            let insertion = current[k] + 1;
            let deletion = previous[k + 1] + 1;
            let smaller = if deletion < insertion {
                deletion
            } else {
                insertion
            };
            let best = if smaller < substitution {
                smaller
            } else {
                substitution
            };
            proof {
                assert(a.last() == left@[i as int]);
                assert(b.last() == right@[k as int]);
                assert(best == levenshtein(a, b));
            }
            current.push(best);
            k += 1;
        }
        previous = current;
        i += 1;
    }
    assert(left@.subrange(0, left.len() as int) =~= left@);
    assert(right@.subrange(0, n as int) =~= right@);
    previous[n]
}

/// A cleaned cue is a wholesale rewrite when, comparing lower-cased alphanumerics,
/// the longer text has at least five characters and the edit distance exceeds half of it.
pub open spec fn wholesale_rewrite(source: Seq<char>, cleaned: Seq<char>) -> bool {
    let a = boundary_key(source);
    let b = boundary_key(cleaned);
    let longest = if a.len() < b.len() {
        b.len()
    } else {
        a.len()
    };
    longest >= 5 && levenshtein(a, b) * 2 > longest
}

pub fn is_wholesale_rewrite(source: &str, cleaned: &str) -> (r: bool)
    requires
        boundary_key(source@).len() < usize::MAX,
        boundary_key(cleaned@).len() < usize::MAX,
    ensures
        r == wholesale_rewrite(source@, cleaned@),
{
    let a = chars_of(boundary_text_key(source).as_str());
    let b = chars_of(boundary_text_key(cleaned).as_str());
    let longest = if a.len() < b.len() {
        b.len()
    } else {
        a.len()
    };
    let distance = edit_distance(&a, &b);
    longest >= 5 && (distance as u128) * 2 > longest as u128
}

} // verus!
