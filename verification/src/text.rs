//! Character-level helpers shared by the subtitle, media and configuration logic.
//!
//! Text is handled as sequences of Unicode scalar values (`Seq<char>`), which is
//! the view Verus gives to `str` and `String`.
use vstd::prelude::*;
use vstd::std_specs::iter::IteratorSpec;
use vstd::string::StringExecFns;

verus! {

broadcast use vstd::string::group_string_axioms;

// ---------------------------------------------------------------------------
// Unicode character classes taken from std.
// ---------------------------------------------------------------------------

/// Whether `c` has the Unicode `White_Space` property, which is what
/// `char::is_whitespace` answers: tab through carriage return, space, next line,
/// no-break space, ogham space mark, the spaces from en quad to hair space, the line
/// and paragraph separators, narrow no-break space, medium mathematical space and
/// ideographic space.
#[verifier::opaque]
pub open spec fn is_white_space(c: char) -> bool {
    ||| '\u{9}' <= c <= '\u{d}'
    ||| c == ' '
    ||| c == '\u{85}'
    ||| c == '\u{a0}'
    ||| c == '\u{1680}'
    ||| '\u{2000}' <= c <= '\u{200a}'
    ||| c == '\u{2028}'
    ||| c == '\u{2029}'
    ||| c == '\u{202f}'
    ||| c == '\u{205f}'
    ||| c == '\u{3000}'
}

/// Whether `c` is alphabetic or numeric in Unicode (what `char::is_alphanumeric` answers).
pub uninterp spec fn is_alphanumeric_char(c: char) -> bool;

/// The characters that `char::to_lowercase` yields for `c`.
pub uninterp spec fn lowercase_of(c: char) -> Seq<char>;

/// `char::is_whitespace`.
pub(crate) fn is_whitespace(c: char) -> (b: bool)
    ensures
        b == is_white_space(c),
{
    reveal(is_white_space);
    ('\u{9}' <= c && c <= '\u{d}') || c == ' ' || c == '\u{85}' || c == '\u{a0}' || c == '\u{1680}'
        || ('\u{2000}' <= c && c <= '\u{200a}') || c == '\u{2028}' || c == '\u{2029}' || c == '\u{202f}'
        || c == '\u{205f}' || c == '\u{3000}'
}

/// Calls `char::is_alphanumeric`; the result is named by `is_alphanumeric_char`.
#[verifier::external_body]
pub(crate) fn is_alphanumeric(c: char) -> (b: bool)
    ensures
        b == is_alphanumeric_char(c),
{
    c.is_alphanumeric()
}

/// Calls `char::to_lowercase` and collects what it yields; the result is named by `lowercase_of`.
#[verifier::external_body]
pub(crate) fn to_lowercase(c: char) -> (r: Vec<char>)
    ensures
        r@ == lowercase_of(c),
{
    c.to_lowercase().collect()
}

/// What `str::to_lowercase` gives for a text. It is not the characters' own mappings
/// run together: a capital sigma at the end of a word becomes a final sigma.
pub uninterp spec fn text_lowercase(s: Seq<char>) -> Seq<char>;

/// Calls `str::to_lowercase`; the result is named by `text_lowercase`.
#[verifier::external_body]
pub(crate) fn str_to_lowercase(s: &str) -> (r: String)
    ensures
        r@ == text_lowercase(s@),
{
    s.to_lowercase()
}

/// Calls `String::push`, which appends one character.
#[verifier::external_body]
pub(crate) fn push_char(s: &mut String, c: char)
    ensures
        final(s)@ == old(s)@.push(c),
{
    s.push(c)
}

// ---------------------------------------------------------------------------
// ASCII classes, stated exactly.
// ---------------------------------------------------------------------------

pub open spec fn ascii_digit(c: char) -> bool {
    '0' <= c && c <= '9'
}

pub open spec fn ascii_lower(c: char) -> bool {
    'a' <= c && c <= 'z'
}

pub open spec fn ascii_upper(c: char) -> bool {
    'A' <= c && c <= 'Z'
}

pub open spec fn ascii_alpha(c: char) -> bool {
    ascii_lower(c) || ascii_upper(c)
}

pub open spec fn ascii_alnum(c: char) -> bool {
    ascii_alpha(c) || ascii_digit(c)
}

pub open spec fn ascii_hex(c: char) -> bool {
    ascii_digit(c) || ('a' <= c && c <= 'f') || ('A' <= c && c <= 'F')
}

/// `char::to_ascii_lowercase`.
pub open spec fn ascii_to_lower(c: char) -> char {
    if ascii_upper(c) {
        ((c as u32) + 32) as char
    } else {
        c
    }
}

/// `char::to_ascii_uppercase`.
pub open spec fn ascii_to_upper(c: char) -> char {
    if ascii_lower(c) {
        ((c as u32) - 32) as char
    } else {
        c
    }
}

pub fn is_ascii_digit(c: char) -> (b: bool)
    ensures
        b == ascii_digit(c),
{
    '0' <= c && c <= '9'
}

pub fn is_ascii_alphabetic(c: char) -> (b: bool)
    ensures
        b == ascii_alpha(c),
{
    ('a' <= c && c <= 'z') || ('A' <= c && c <= 'Z')
}

pub fn is_ascii_alphanumeric(c: char) -> (b: bool)
    ensures
        b == ascii_alnum(c),
{
    is_ascii_alphabetic(c) || is_ascii_digit(c)
}

pub fn is_ascii_hexdigit(c: char) -> (b: bool)
    ensures
        b == ascii_hex(c),
{
    is_ascii_digit(c) || ('a' <= c && c <= 'f') || ('A' <= c && c <= 'F')
}

pub fn to_ascii_lowercase(c: char) -> (r: char)
    ensures
        r == ascii_to_lower(c),
{
    if 'A' <= c && c <= 'Z' {
        let code: u32 = c as u32 + 32;
        assert(code <= 0x7f);
        char_from_ascii(code)
    } else {
        c
    }
}

fn char_from_ascii(code: u32) -> (c: char)
    requires
        code <= 0x7f,
    ensures
        c == code as char,
{
    let byte: u8 = code as u8;
    byte as char
}

/// The ASCII-lowercased copy of `s` (`str::to_ascii_lowercase`).
pub open spec fn ascii_lowercase(s: Seq<char>) -> Seq<char> {
    s.map_values(|c: char| ascii_to_lower(c))
}

pub fn ascii_lowercase_chars(s: &Vec<char>) -> (r: Vec<char>)
    ensures
        r@ == ascii_lowercase(s@),
{
    let mut out: Vec<char> = Vec::new();
    let mut i: usize = 0;
    while i < s.len()
        invariant
            i <= s.len(),
            out@ == ascii_lowercase(s@.subrange(0, i as int)),
        decreases s.len() - i,
    {
        let c = to_ascii_lowercase(s[i]);
        out.push(c);
        i += 1;
        assert(ascii_lowercase(s@.subrange(0, i as int)) =~= ascii_lowercase(
            s@.subrange(0, (i - 1) as int),
        ).push(ascii_to_lower(s@[i - 1])));
    }
    assert(s@.subrange(0, s.len() as int) =~= s@);
    out
}

// ---------------------------------------------------------------------------
// Conversions between `str`/`String` and character vectors.
// ---------------------------------------------------------------------------

/// The characters of `s`, in order.
pub fn chars_of(s: &str) -> (r: Vec<char>)
    ensures
        r@ == s@,
{
    let mut it = s.chars();
    let mut out: Vec<char> = Vec::new();
    loop
        invariant
            out@ + it.remaining() == s@,
            it.decrease() is Some,
        ensures
            out@ == s@,
        decreases it.decrease()->0,
    {
        match it.next() {
            Some(c) => {
                out.push(c);
            },
            None => {
                break ;
            },
        }
    }
    out
}

/// A `String` holding exactly the characters of `v`.
pub fn string_of(v: &[char]) -> (r: String)
    ensures
        r@ == v@,
{
    let mut out = String::new();
    let mut i: usize = 0;
    while i < v.len()
        invariant
            i <= v.len(),
            out@ == v@.subrange(0, i as int),
        decreases v.len() - i,
    {
        push_char(&mut out, v[i]);
        i += 1;
        assert(out@ =~= v@.subrange(0, i as int));
    }
    assert(v@.subrange(0, v.len() as int) =~= v@);
    out
}

/// Appends the characters of `v` to `out`.
pub fn extend_chars(out: &mut Vec<char>, v: &[char])
    ensures
        final(out)@ == old(out)@ + v@,
{
    let mut i: usize = 0;
    while i < v.len()
        invariant
            i <= v.len(),
            out@ == old(out)@ + v@.subrange(0, i as int),
        decreases v.len() - i,
    {
        out.push(v[i]);
        i += 1;
        assert(out@ =~= old(out)@ + v@.subrange(0, i as int));
    }
    assert(v@.subrange(0, v.len() as int) =~= v@);
}

/// Copies `v[start..end]`.
pub fn slice_chars(v: &[char], start: usize, end: usize) -> (r: Vec<char>)
    requires
        start <= end <= v.len(),
    ensures
        r@ == v@.subrange(start as int, end as int),
{
    let mut out: Vec<char> = Vec::new();
    let mut i: usize = start;
    while i < end
        invariant
            start <= i <= end <= v.len(),
            out@ == v@.subrange(start as int, i as int),
        decreases end - i,
    {
        out.push(v[i]);
        i += 1;
        assert(out@ =~= v@.subrange(start as int, i as int));
    }
    out
}

/// Character-wise equality of two sequences.
pub fn chars_eq(a: &[char], b: &[char]) -> (r: bool)
    ensures
        r == (a@ == b@),
{
    if a.len() != b.len() {
        return false;
    }
    let mut i: usize = 0;
    while i < a.len()
        invariant
            i <= a.len() == b.len(),
            a@.subrange(0, i as int) == b@.subrange(0, i as int),
        decreases a.len() - i,
    {
        if a[i] != b[i] {
            assert(a@[i as int] != b@[i as int]);
            return false;
        }
        i += 1;
        assert(a@.subrange(0, i as int) =~= a@.subrange(0, (i - 1) as int).push(a@[i - 1]));
        assert(b@.subrange(0, i as int) =~= b@.subrange(0, (i - 1) as int).push(b@[i - 1]));
    }
    assert(a@ =~= a@.subrange(0, a.len() as int));
    assert(b@ =~= b@.subrange(0, b.len() as int));
    true
}

/// Whether `s` begins with `prefix`.
pub open spec fn has_prefix(s: Seq<char>, prefix: Seq<char>) -> bool {
    prefix.len() <= s.len() && s.subrange(0, prefix.len() as int) == prefix
}

/// Whether `s` ends with `suffix`.
pub open spec fn has_suffix(s: Seq<char>, suffix: Seq<char>) -> bool {
    suffix.len() <= s.len() && s.subrange(s.len() - suffix.len(), s.len() as int) == suffix
}

/// Whether `s` holds `pattern` at position `at`.
pub open spec fn occurs_at(s: Seq<char>, pattern: Seq<char>, at: int) -> bool {
    0 <= at && at + pattern.len() <= s.len() && s.subrange(at, at + pattern.len()) == pattern
}

/// Whether `pattern` occurs anywhere in `s` (`str::contains`).
pub open spec fn contains_seq(s: Seq<char>, pattern: Seq<char>) -> bool {
    exists|at: int| occurs_at(s, pattern, at)
}

pub fn occurs_at_exec(s: &[char], pattern: &[char], at: usize) -> (r: bool)
    ensures
        r == occurs_at(s@, pattern@, at as int),
{
    if at > s.len() || pattern.len() > s.len() - at {
        return false;
    }
    let mut i: usize = 0;
    while i < pattern.len()
        invariant
            at + pattern.len() <= s.len(),
            i <= pattern.len(),
            forall|k: int| 0 <= k < i ==> s@[at + k] == pattern@[k],
        decreases pattern.len() - i,
    {
        if s[at + i] != pattern[i] {
            assert(s@.subrange(at as int, at + pattern.len())[i as int] != pattern@[i as int]);
            return false;
        }
        i += 1;
    }
    assert(s@.subrange(at as int, at + pattern.len()) =~= pattern@);
    true
}

pub fn starts_with(s: &[char], prefix: &[char]) -> (r: bool)
    ensures
        r == has_prefix(s@, prefix@),
{
    occurs_at_exec(s, prefix, 0)
}

pub fn ends_with(s: &[char], suffix: &[char]) -> (r: bool)
    ensures
        r == has_suffix(s@, suffix@),
{
    if suffix.len() > s.len() {
        return false;
    }
    occurs_at_exec(s, suffix, s.len() - suffix.len())
}

/// The first position at which `pattern` occurs in `s`, if any.
pub fn find_seq(s: &[char], pattern: &[char]) -> (r: Option<usize>)
    ensures
        match r {
            Some(at) => occurs_at(s@, pattern@, at as int) && forall|k: int|
                0 <= k < at ==> !occurs_at(s@, pattern@, k),
            None => !contains_seq(s@, pattern@),
        },
{
    let mut at: usize = 0;
    while at < s.len()
        invariant
            at <= s.len(),
            forall|k: int| 0 <= k < at ==> !occurs_at(s@, pattern@, k),
        decreases s.len() - at,
    {
        if occurs_at_exec(s, pattern, at) {
            return Some(at);
        }
        at += 1;
    }
    if occurs_at_exec(s, pattern, at) {
        return Some(at);
    }
    assert forall|k: int| !occurs_at(s@, pattern@, k) by {
        if 0 <= k < at {
        } else if k > at {
        }
    }
    None
}

pub fn contains_exec(s: &[char], pattern: &[char]) -> (r: bool)
    ensures
        r == contains_seq(s@, pattern@),
{
    match find_seq(s, pattern) {
        Some(_) => true,
        None => false,
    }
}

/// Whether `c` occurs in `s`.
pub fn contains_char(s: &[char], c: char) -> (r: bool)
    ensures
        r == s@.contains(c),
{
    let mut i: usize = 0;
    while i < s.len()
        invariant
            i <= s.len(),
            forall|k: int| 0 <= k < i ==> s@[k] != c,
        decreases s.len() - i,
    {
        if s[i] == c {
            assert(s@[i as int] == c);
            return true;
        }
        i += 1;
    }
    false
}

// ---------------------------------------------------------------------------
// Trimming.
// ---------------------------------------------------------------------------

/// `str::trim_start`: drop leading white space.
pub open spec fn trim_start(s: Seq<char>) -> Seq<char>
    decreases s.len(),
{
    if s.len() > 0 && is_white_space(s[0]) {
        trim_start(s.drop_first())
    } else {
        s
    }
}

/// `str::trim_end`: drop trailing white space.
pub open spec fn trim_end(s: Seq<char>) -> Seq<char>
    decreases s.len(),
{
    if s.len() > 0 && is_white_space(s.last()) {
        trim_end(s.drop_last())
    } else {
        s
    }
}

/// `str::trim`: drop leading and trailing white space.
pub open spec fn trim(s: Seq<char>) -> Seq<char> {
    trim_end(trim_start(s))
}

/// Whether every character of `s` is white space (so `trim(s)` is empty).
pub open spec fn all_white(s: Seq<char>) -> bool {
    forall|k: int| 0 <= k < s.len() ==> is_white_space(#[trigger] s[k])
}

pub proof fn lemma_trim_start_at(s: Seq<char>, i: int)
    requires
        0 <= i <= s.len(),
        forall|k: int| 0 <= k < i ==> is_white_space(#[trigger] s[k]),
        i == s.len() || !is_white_space(s[i]),
    ensures
        trim_start(s) == s.subrange(i, s.len() as int),
    decreases i,
{
    if i == 0 {
        assert(s.subrange(0, s.len() as int) =~= s);
    } else {
        let t = s.drop_first();
        assert forall|k: int| 0 <= k < i - 1 implies is_white_space(#[trigger] t[k]) by {
            assert(t[k] == s[k + 1]);
        }
        lemma_trim_start_at(t, i - 1);
        assert(t.subrange(i - 1, t.len() as int) =~= s.subrange(i, s.len() as int));
    }
}

pub proof fn lemma_trim_end_at(s: Seq<char>, j: int)
    requires
        0 <= j <= s.len(),
        forall|k: int| j <= k < s.len() ==> is_white_space(#[trigger] s[k]),
        j == 0 || !is_white_space(s[j - 1]),
    ensures
        trim_end(s) == s.subrange(0, j),
    decreases s.len() - j,
{
    if j == s.len() {
        assert(s.subrange(0, s.len() as int) =~= s);
    } else {
        let t = s.drop_last();
        assert forall|k: int| j <= k < t.len() implies is_white_space(#[trigger] t[k]) by {
            assert(t[k] == s[k]);
        }
        lemma_trim_end_at(t, j);
        assert(t.subrange(0, j) =~= s.subrange(0, j));
    }
}

/// The bounds `(start, end)` with `v[start..end] == trim(v)`.
pub fn trim_bounds(v: &[char]) -> (r: (usize, usize))
    ensures
        r.0 <= r.1 <= v.len(),
        v@.subrange(r.0 as int, r.1 as int) == trim(v@),
        r.0 == r.1 ==> all_white(v@),
{
    let mut i: usize = 0;
    while i < v.len() && is_whitespace(v[i])
        invariant
            i <= v.len(),
            forall|k: int| 0 <= k < i ==> is_white_space(#[trigger] v@[k]),
        decreases v.len() - i,
    {
        i += 1;
    }
    proof {
        lemma_trim_start_at(v@, i as int);
    }
    let ghost t = v@.subrange(i as int, v.len() as int);
    let mut j: usize = v.len();
    while j > i && is_whitespace(v[j - 1])
        invariant
            i <= j <= v.len(),
            forall|k: int| j <= k < v.len() ==> is_white_space(#[trigger] v@[k]),
        decreases j - i,
    {
        j -= 1;
    }
    proof {
        assert forall|k: int| j - i <= k < t.len() implies is_white_space(#[trigger] t[k]) by {
            assert(t[k] == v@[k + i]);
        }
        if j > i {
            assert(t[j - i - 1] == v@[j - 1]);
        }
        lemma_trim_end_at(t, j - i);
        assert(t.subrange(0, j - i) =~= v@.subrange(i as int, j as int));
        if i == j {
            assert forall|k: int| 0 <= k < v@.len() implies is_white_space(#[trigger] v@[k]) by {
                if k < i {
                } else {
                }
            }
        }
    }
    (i, j)
}

/// `trim(v)` as a new vector.
pub fn trim_chars(v: &[char]) -> (r: Vec<char>)
    ensures
        r@ == trim(v@),
        r@.len() == 0 ==> all_white(v@),
{
    let (i, j) = trim_bounds(v);
    slice_chars(v, i, j)
}

pub fn trim_end_chars(v: &[char]) -> (r: Vec<char>)
    ensures
        r@ == trim_end(v@),
{
    let mut j: usize = v.len();
    while j > 0 && is_whitespace(v[j - 1])
        invariant
            j <= v.len(),
            forall|k: int| j <= k < v.len() ==> is_white_space(#[trigger] v@[k]),
        decreases j,
    {
        j -= 1;
    }
    proof {
        lemma_trim_end_at(v@, j as int);
    }
    slice_chars(v, 0, j)
}

/// Whether `trim(s)` is empty.
pub fn is_blank(v: &[char]) -> (r: bool)
    ensures
        r == (trim(v@).len() == 0),
        r == all_white(v@),
{
    let (i, j) = trim_bounds(v);
    proof {
        if all_white(v@) && i < j {
            lemma_trim_nonempty_first(v@, i as int, j as int);
            assert(is_white_space(v@[i as int]));
        }
    }
    i == j
}

proof fn lemma_trim_nonempty_first(s: Seq<char>, i: int, j: int)
    requires
        0 <= i < j <= s.len(),
        s.subrange(i, j) == trim(s),
    ensures
        !is_white_space(s[i]),
{
    lemma_trim_edges(s);
    assert(trim(s)[0] == s[i]);
}

/// The first and last characters of a non-empty trimmed sequence are not white space.
pub proof fn lemma_trim_edges(s: Seq<char>)
    ensures
        trim(s).len() > 0 ==> !is_white_space(trim(s)[0]) && !is_white_space(trim(s).last()),
        trim(s).len() <= s.len(),
{
    lemma_trim_start_edges(s);
    lemma_trim_end_edges(trim_start(s));
    if trim(s).len() > 0 {
        lemma_trim_end_prefix(trim_start(s));
        assert(trim(s)[0] == trim_start(s)[0]);
    }
}

proof fn lemma_trim_start_edges(s: Seq<char>)
    ensures
        trim_start(s).len() > 0 ==> !is_white_space(trim_start(s)[0]),
        trim_start(s).len() <= s.len(),
    decreases s.len(),
{
    if s.len() > 0 && is_white_space(s[0]) {
        lemma_trim_start_edges(s.drop_first());
    }
}

proof fn lemma_trim_end_edges(s: Seq<char>)
    ensures
        trim_end(s).len() > 0 ==> !is_white_space(trim_end(s).last()),
        trim_end(s).len() <= s.len(),
    decreases s.len(),
{
    if s.len() > 0 && is_white_space(s.last()) {
        lemma_trim_end_edges(s.drop_last());
    }
}

/// `trim_end(s)` is a prefix of `s`.
pub proof fn lemma_trim_end_prefix(s: Seq<char>)
    ensures
        trim_end(s).len() <= s.len(),
        trim_end(s) == s.subrange(0, trim_end(s).len() as int),
    decreases s.len(),
{
    if s.len() > 0 && is_white_space(s.last()) {
        lemma_trim_end_prefix(s.drop_last());
        assert(s.drop_last().subrange(0, trim_end(s).len() as int) =~= s.subrange(
            0,
            trim_end(s).len() as int,
        ));
    } else {
        assert(s.subrange(0, s.len() as int) =~= s);
    }
}

// ---------------------------------------------------------------------------
// Splitting into lines and joining.
// ---------------------------------------------------------------------------

/// The position of the first `c` in `s`, or `s.len()` when there is none.
pub open spec fn index_of(s: Seq<char>, c: char) -> nat
    decreases s.len(),
{
    if s.len() == 0 {
        0
    } else if s[0] == c {
        0
    } else {
        1 + index_of(s.drop_first(), c)
    }
}

/// `strip_suffix('\r')` for a line, keeping it unchanged when it has none.
pub open spec fn strip_cr(s: Seq<char>) -> Seq<char> {
    if s.len() > 0 && s.last() == '\r' {
        s.drop_last()
    } else {
        s
    }
}

/// `str::lines`: pieces between `'\n'`, each without a `'\r'` before its `'\n'`;
/// a final line ending produces no empty last line.
pub open spec fn lines(s: Seq<char>) -> Seq<Seq<char>>
    decreases s.len(),
{
    if s.len() == 0 {
        seq![]
    } else {
        let n = index_of(s, '\n');
        if n < s.len() {
            seq![strip_cr(s.subrange(0, n as int))] + lines(s.subrange(n as int + 1, s.len() as int))
        } else {
            seq![s]
        }
    }
}

pub proof fn lemma_index_of(s: Seq<char>, c: char)
    ensures
        index_of(s, c) <= s.len(),
        forall|k: int| 0 <= k < index_of(s, c) ==> s[k] != c,
        index_of(s, c) < s.len() ==> s[index_of(s, c) as int] == c,
    decreases s.len(),
{
    if s.len() > 0 && s[0] != c {
        lemma_index_of(s.drop_first(), c);
        assert forall|k: int| 0 <= k < index_of(s, c) implies s[k] != c by {
            if k > 0 {
                assert(s[k] == s.drop_first()[k - 1]);
            }
        }
    }
}

pub proof fn lemma_index_of_at(s: Seq<char>, c: char, n: int)
    requires
        0 <= n <= s.len(),
        forall|k: int| 0 <= k < n ==> s[k] != c,
        n == s.len() || s[n] == c,
    ensures
        index_of(s, c) == n,
    decreases n,
{
    if n > 0 {
        assert(s[0] != c);
        let t = s.drop_first();
        assert forall|k: int| 0 <= k < n - 1 implies t[k] != c by {
            assert(t[k] == s[k + 1]);
        }
        lemma_index_of_at(t, c, n - 1);
    }
}

/// The character sequences held by a vector of character vectors.
pub open spec fn views(v: Seq<Vec<char>>) -> Seq<Seq<char>> {
    v.map_values(|x: Vec<char>| x@)
}

/// The lines of `v` (`str::lines`).
pub fn lines_of(v: &[char]) -> (r: Vec<Vec<char>>)
    ensures
        views(r@) == lines(v@),
{
    let mut out: Vec<Vec<char>> = Vec::new();
    let mut start: usize = 0;
    let mut i: usize = 0;
    assert(v@.subrange(0, v.len() as int) =~= v@);
    assert(views(out@) =~= Seq::<Seq<char>>::empty());
    while i < v.len()
        invariant
            start <= i <= v.len(),
            forall|k: int| start <= k < i ==> v@[k] != '\n',
            views(out@) + lines(v@.subrange(start as int, v.len() as int)) == lines(v@),
        decreases v.len() - i,
    {
        if v[i] == '\n' {
            let ghost rest = v@.subrange(start as int, v.len() as int);
            proof {
                assert forall|k: int| 0 <= k < i - start implies rest[k] != '\n' by {
                    assert(rest[k] == v@[start + k]);
                }
                assert(rest[i - start] == v@[i as int]);
                lemma_index_of_at(rest, '\n', i - start);
                assert(rest.subrange(0, i - start) =~= v@.subrange(start as int, i as int));
                assert(rest.subrange(i - start + 1, rest.len() as int) =~= v@.subrange(
                    i + 1,
                    v.len() as int,
                ));
            }
            let mut end = i;
            if end > start && v[end - 1] == '\r' {
                end -= 1;
            }
            let line = slice_chars(v, start, end);
            proof {
                let piece = v@.subrange(start as int, i as int);
                if i > start && v@[i - 1] == '\r' {
                    assert(strip_cr(piece) =~= line@);
                } else {
                    assert(strip_cr(piece) =~= line@);
                }
            }
            let ghost before = views(out@);
            out.push(line);
            proof {
                assert(views(out@) =~= before.push(line@));
                assert(lines(rest) == seq![strip_cr(v@.subrange(start as int, i as int))] + lines(
                    v@.subrange(i + 1, v.len() as int),
                ));
                assert(views(out@) + lines(v@.subrange(i + 1, v.len() as int)) =~= before
                    + lines(rest));
            }
            start = i + 1;
        }
        i += 1;
    }
    if start < v.len() {
        let ghost rest = v@.subrange(start as int, v.len() as int);
        proof {
            assert forall|k: int| 0 <= k < rest.len() implies rest[k] != '\n' by {
                assert(rest[k] == v@[start + k]);
            }
            lemma_index_of_at(rest, '\n', rest.len() as int);
        }
        let line = slice_chars(v, start, v.len());
        let ghost before = views(out@);
        out.push(line);
        proof {
            assert(views(out@) =~= before.push(line@));
            assert(lines(v@.subrange(v.len() as int, v.len() as int)) =~= Seq::<Seq<char>>::empty());
            assert(views(out@) =~= before + lines(rest));
        }
    } else {
        assert(lines(v@.subrange(start as int, v.len() as int)) =~= Seq::<Seq<char>>::empty());
        assert(views(out@) =~= views(out@) + Seq::<Seq<char>>::empty());
    }
    out
}

/// `parts.join(sep)`.
pub open spec fn join(parts: Seq<Seq<char>>, sep: Seq<char>) -> Seq<char>
    decreases parts.len(),
{
    if parts.len() == 0 {
        seq![]
    } else if parts.len() == 1 {
        parts[0]
    } else {
        join(parts.drop_last(), sep) + sep + parts.last()
    }
}

/// Joins `parts` with `sep` between them.
pub fn join_chars(parts: &Vec<Vec<char>>, sep: &[char]) -> (r: Vec<char>)
    ensures
        r@ == join(views(parts@), sep@),
{
    let mut out: Vec<char> = Vec::new();
    let mut i: usize = 0;
    while i < parts.len()
        invariant
            i <= parts.len(),
            out@ == join(views(parts@).subrange(0, i as int), sep@),
        decreases parts.len() - i,
    {
        let ghost prefix = views(parts@).subrange(0, i as int);
        if i > 0 {
            extend_chars(&mut out, sep);
        }
        extend_chars(&mut out, &parts[i]);
        i += 1;
        proof {
            let next = views(parts@).subrange(0, i as int);
            assert(next.drop_last() =~= prefix);
            assert(next.last() == parts[i - 1]@);
            if i == 1 {
                assert(out@ =~= join(next, sep@));
            }
        }
    }
    assert(views(parts@).subrange(0, parts.len() as int) =~= views(parts@));
    out
}

// ---------------------------------------------------------------------------
// Decimal numbers.
// ---------------------------------------------------------------------------

pub open spec fn digit_char(d: nat) -> char {
    ((d % 10) + ('0' as nat)) as char
}

pub open spec fn digit_value(c: char) -> nat {
    ((c as nat) - ('0' as nat)) as nat
}

/// The decimal digits of `n` without leading zeros (`"0"` for zero).
pub open spec fn decimal(n: nat) -> Seq<char>
    decreases n,
{
    if n < 10 {
        seq![digit_char(n)]
    } else {
        decimal(n / 10).push(digit_char(n % 10))
    }
}

/// `s` preceded by enough `'0'` to make it at least `width` long.
pub open spec fn zero_pad(s: Seq<char>, width: nat) -> Seq<char> {
    if s.len() >= width {
        s
    } else {
        Seq::new((width - s.len()) as nat, |_i: int| '0') + s
    }
}

/// Rust's `{:0width$}` formatting of a signed integer.
pub open spec fn format_padded(v: int, width: nat) -> Seq<char> {
    if v < 0 {
        seq!['-'] + zero_pad(decimal((-v) as nat), if width > 0 { (width - 1) as nat } else { 0 })
    } else {
        zero_pad(decimal(v as nat), width)
    }
}

proof fn lemma_decimal_len(n: nat)
    ensures
        decimal(n).len() >= 1,
    decreases n,
{
    if n >= 10 {
        lemma_decimal_len(n / 10);
    }
}

fn digit_to_char(d: u64) -> (c: char)
    requires
        d < 10,
    ensures
        c == digit_char(d as nat),
{
    let byte: u8 = (d as u8) + 48;
    byte as char
}

/// Appends the decimal digits of `n`.
pub fn push_decimal(out: &mut Vec<char>, n: u64)
    ensures
        final(out)@ == old(out)@ + decimal(n as nat),
    decreases n,
{
    if n < 10 {
        out.push(digit_to_char(n));
        assert(decimal(n as nat) =~= seq![digit_char(n as nat)]);
    } else {
        push_decimal(out, n / 10);
        out.push(digit_to_char(n % 10));
        assert(decimal(n as nat) == decimal((n / 10) as nat).push(digit_char((n % 10) as nat)));
    }
}

/// Appends `n` zero-padded to `width` characters.
pub fn push_padded(out: &mut Vec<char>, n: u64, width: usize)
    ensures
        final(out)@ == old(out)@ + zero_pad(decimal(n as nat), width as nat),
{
    let mut digits: Vec<char> = Vec::new();
    push_decimal(&mut digits, n);
    assert(digits@ =~= decimal(n as nat));
    if digits.len() < width {
        let pad = width - digits.len();
        let mut k: usize = 0;
        let ghost start = out@;
        while k < pad
            invariant
                k <= pad,
                out@ == start + Seq::new(k as nat, |_i: int| '0'),
            decreases pad - k,
        {
            out.push('0');
            k += 1;
            assert(out@ =~= start + Seq::new(k as nat, |_i: int| '0'));
        }
    }
    extend_chars(out, &digits);
    proof {
        if digits.len() < width {
            assert(final(out)@ =~= old(out)@ + zero_pad(decimal(n as nat), width as nat));
        } else {
            assert(zero_pad(decimal(n as nat), width as nat) == decimal(n as nat));
        }
    }
}

/// The decimal representation of `n`.
pub fn decimal_chars(n: u64) -> (r: Vec<char>)
    ensures
        r@ == decimal(n as nat),
{
    let mut out: Vec<char> = Vec::new();
    push_decimal(&mut out, n);
    assert(out@ =~= decimal(n as nat));
    out
}

/// The value of a run of ASCII digits.
pub open spec fn digits_value(s: Seq<char>) -> nat
    decreases s.len(),
{
    if s.len() == 0 {
        0
    } else {
        digits_value(s.drop_last()) * 10 + digit_value(s.last())
    }
}

pub open spec fn all_digits(s: Seq<char>) -> bool {
    forall|k: int| 0 <= k < s.len() ==> ascii_digit(#[trigger] s[k])
}

/// The integer that `s` spells with an optional leading `+` or (when `signed`) `-`,
/// as Rust's integer `FromStr` reads it before checking the range.
pub open spec fn spelled_integer(s: Seq<char>, signed: bool) -> Option<int> {
    if s.len() > 0 && (s[0] == '+' || (signed && s[0] == '-')) {
        let rest = s.drop_first();
        if rest.len() > 0 && all_digits(rest) {
            if s[0] == '-' {
                Some(-(digits_value(rest) as int))
            } else {
                Some(digits_value(rest) as int)
            }
        } else {
            None
        }
    } else if s.len() > 0 && all_digits(s) {
        Some(digits_value(s) as int)
    } else {
        None
    }
}

/// What `str::parse::<i64>()` gives for `s`.
pub open spec fn parsed_i64(s: Seq<char>) -> Option<int> {
    match spelled_integer(s, true) {
        Some(v) => if i64::MIN <= v <= i64::MAX {
            Some(v)
        } else {
            None
        },
        None => None,
    }
}

/// What `str::parse::<u64>()` gives for `s` (also `usize` on 64-bit targets, `u8`/`u32` by range).
pub open spec fn parsed_unsigned(s: Seq<char>, max: int) -> Option<int> {
    match spelled_integer(s, false) {
        Some(v) => if 0 <= v <= max {
            Some(v)
        } else {
            None
        },
        None => None,
    }
}

proof fn lemma_digits_value_grows(s: Seq<char>, i: int)
    requires
        0 <= i <= s.len(),
    ensures
        digits_value(s.subrange(0, i)) <= digits_value(s),
    decreases s.len() - i,
{
    if i < s.len() {
        lemma_digits_value_grows(s, i + 1);
        assert(s.subrange(0, i + 1).drop_last() =~= s.subrange(0, i));
    } else {
        assert(s.subrange(0, i) =~= s);
    }
}

/// Reads the digits `v[start..]` into a value no larger than `limit`.
fn read_digits(v: &[char], start: usize, limit: u64) -> (r: Option<u64>)
    requires
        start <= v.len(),
    ensures
        match r {
            Some(n) => start < v.len() && all_digits(v@.subrange(start as int, v.len() as int))
                && n == digits_value(v@.subrange(start as int, v.len() as int)) && n <= limit,
            None => !(start < v.len() && all_digits(v@.subrange(start as int, v.len() as int))
                && digits_value(v@.subrange(start as int, v.len() as int)) <= limit),
        },
{
    let ghost s = v@.subrange(start as int, v.len() as int);
    if start == v.len() {
        return None;
    }
    let mut acc: u64 = 0;
    let mut i: usize = start;
    while i < v.len()
        invariant
            start <= i <= v.len(),
            s == v@.subrange(start as int, v.len() as int),
            all_digits(v@.subrange(start as int, i as int)),
            acc == digits_value(v@.subrange(start as int, i as int)),
            acc <= limit,
        decreases v.len() - i,
    {
        let c = v[i];
        if !is_ascii_digit(c) {
            proof {
                assert(s[i - start] == c);
            }
            return None;
        }
        let d: u64 = (c as u64) - 48;
        let ghost prev = v@.subrange(start as int, i as int);
        proof {
            assert(v@.subrange(start as int, i + 1).drop_last() =~= prev);
            assert(v@.subrange(start as int, i + 1).last() == c);
        }
        if d > limit || acc > (limit - d) / 10 {
            proof {
                assert(digits_value(v@.subrange(start as int, i + 1)) == acc * 10 + d);
                assert(acc * 10 + d > limit) by (nonlinear_arith)
                    requires
                        d > limit || acc > (limit - d) / 10,
                        d <= 9,
                ;
                assert(v@.subrange(start as int, i + 1) =~= s.subrange(0, i + 1 - start));
                lemma_digits_value_grows(s, i + 1 - start);
            }
            return None;
        }
        proof {
            assert(acc * 10 + d <= limit) by (nonlinear_arith)
                requires
                    acc <= (limit - d) / 10,
                    d <= limit,
            ;
        }
        acc = acc * 10 + d;
        i += 1;
        proof {
            assert forall|k: int| 0 <= k < i - start implies ascii_digit(
                #[trigger] v@.subrange(start as int, i as int)[k],
            ) by {
                if k < i - 1 - start {
                    assert(v@.subrange(start as int, i as int)[k] == prev[k]);
                }
            }
        }
    }
    Some(acc)
}

/// `str::parse::<i64>()`.
pub fn parse_i64(v: &[char]) -> (r: Option<i64>)
    ensures
        match r {
            Some(n) => parsed_i64(v@) == Some(n as int),
            None => parsed_i64(v@) is None,
        },
{
    let negative = v.len() > 0 && v[0] == '-';
    let signed = v.len() > 0 && (v[0] == '+' || v[0] == '-');
    let start: usize = if signed { 1 } else { 0 };
    let limit: u64 = if negative { 9_223_372_036_854_775_808 } else { 9_223_372_036_854_775_807 };
    proof {
        if signed {
            assert(v@.drop_first() =~= v@.subrange(1, v.len() as int));
        } else {
            assert(v@ =~= v@.subrange(0, v.len() as int));
        }
    }
    match read_digits(v, start, limit) {
        Some(n) => {
            if negative {
                if n == 9_223_372_036_854_775_808 {
                    Some(i64::MIN)
                } else {
                    let m: i64 = n as i64;
                    Some(-m)
                }
            } else {
                Some(n as i64)
            }
        },
        None => None,
    }
}

/// `str::parse` into an unsigned integer no larger than `max`.
pub fn parse_unsigned(v: &[char], max: u64) -> (r: Option<u64>)
    ensures
        match r {
            Some(n) => parsed_unsigned(v@, max as int) == Some(n as int),
            None => parsed_unsigned(v@, max as int) is None,
        },
{
    let signed = v.len() > 0 && v[0] == '+';
    let start: usize = if signed { 1 } else { 0 };
    proof {
        if signed {
            assert(v@.drop_first() =~= v@.subrange(1, v.len() as int));
        } else {
            assert(v@ =~= v@.subrange(0, v.len() as int));
        }
    }
    read_digits(v, start, max)
}

// ---------------------------------------------------------------------------
// Small string operations.
// ---------------------------------------------------------------------------

/// Whether two strings hold the same characters.
pub fn str_eq(a: &str, b: &str) -> (r: bool)
    ensures
        r == (a@ == b@),
{
    let x = chars_of(a);
    let y = chars_of(b);
    chars_eq(&x, &y)
}

/// `a` followed by `b`.
pub fn concat_str(a: &str, b: &str) -> (r: String)
    ensures
        r@ == a@ + b@,
{
    let mut v = chars_of(a);
    let w = chars_of(b);
    extend_chars(&mut v, &w);
    string_of(&v)
}

/// `a`, then `b`, then `c`.
pub fn concat3(a: &str, b: &str, c: &str) -> (r: String)
    ensures
        r@ == a@ + b@ + c@,
{
    let mut v = chars_of(a);
    let w = chars_of(b);
    let x = chars_of(c);
    extend_chars(&mut v, &w);
    extend_chars(&mut v, &x);
    string_of(&v)
}

/// `s` with every trailing copy of `suffix` removed.
pub open spec fn strip_suffix_all(s: Seq<char>, suffix: Seq<char>) -> Seq<char>
    decreases s.len(),
{
    if suffix.len() > 0 && has_suffix(s, suffix) {
        strip_suffix_all(s.subrange(0, s.len() - suffix.len()), suffix)
    } else {
        s
    }
}

/// `str::trim_end_matches` with a string pattern.
pub fn trim_end_matches_chars(s: &[char], suffix: &[char]) -> (r: Vec<char>)
    ensures
        r@ == strip_suffix_all(s@, suffix@),
{
    let mut end: usize = s.len();
    if suffix.len() == 0 {
        return slice_chars(s, 0, end);
    }
    assert(s@.subrange(0, end as int) =~= s@);
    while end >= suffix.len() && ends_with(&slice_chars(s, 0, end), suffix)
        invariant
            end <= s.len(),
            suffix.len() > 0,
            strip_suffix_all(s@, suffix@) == strip_suffix_all(s@.subrange(0, end as int), suffix@),
        decreases end,
    {
        let ghost before = s@.subrange(0, end as int);
        end = end - suffix.len();
        assert(before.subrange(0, before.len() - suffix.len()) =~= s@.subrange(0, end as int));
    }
    let r = slice_chars(s, 0, end);
    proof {
        let t = s@.subrange(0, end as int);
        if has_suffix(t, suffix@) {
            assert(end >= suffix.len());
        }
    }
    r
}

/// The part of `s` after `prefix`, when `s` begins with it.
pub fn strip_prefix_chars(s: &[char], prefix: &[char]) -> (r: Option<Vec<char>>)
    ensures
        match r {
            Some(rest) => has_prefix(s@, prefix@) && rest@ == s@.subrange(
                prefix.len() as int,
                s.len() as int,
            ),
            None => !has_prefix(s@, prefix@),
        },
{
    if starts_with(s, prefix) {
        Some(slice_chars(s, prefix.len(), s.len()))
    } else {
        None
    }
}

/// The characters of an optional string.
pub open spec fn opt_str(o: Option<&str>) -> Option<Seq<char>> {
    match o {
        Some(s) => Some(s@),
        None => None,
    }
}

/// The characters of an optional owned string.
pub open spec fn opt_string(o: Option<String>) -> Option<Seq<char>> {
    match o {
        Some(s) => Some(s@),
        None => None,
    }
}


/// Whether `c` is in the Unicode control category (Cc): U+0000 to U+001F and U+007F
/// to U+009F, as `char::is_control` answers.
pub open spec fn is_control_char(c: char) -> bool {
    (c as u32) <= 0x1f || (0x7f <= (c as u32) && (c as u32) <= 0x9f)
}

pub fn is_control(c: char) -> (r: bool)
    ensures
        r == is_control_char(c),
{
    let code = c as u32;
    code <= 0x1f || (0x7f <= code && code <= 0x9f)
}

/// A character that is not white space survives `trim_start`.
proof fn lemma_trim_start_keeps(x: Seq<char>, k: int)
    requires
        0 <= k < x.len(),
        !is_white_space(x[k]),
    ensures
        exists|j: int| 0 <= j < trim_start(x).len() && !is_white_space(#[trigger] trim_start(x)[j]),
    decreases x.len(),
{
    if is_white_space(x[0]) {
        let t = x.drop_first();
        assert(t[k - 1] == x[k]);
        lemma_trim_start_keeps(t, k - 1);
        assert(trim_start(x) == trim_start(t));
        let j = choose|j: int| 0 <= j < trim_start(t).len() && !is_white_space(#[trigger] trim_start(t)[j]);
        assert(!is_white_space(trim_start(x)[j]));
    } else {
        assert(!is_white_space(trim_start(x)[k]));
    }
}

/// A character that is not white space keeps `trim_end` non-empty.
proof fn lemma_trim_end_nonempty(y: Seq<char>, j: int)
    requires
        0 <= j < y.len(),
        !is_white_space(y[j]),
    ensures
        trim_end(y).len() > 0,
    decreases y.len(),
{
    if is_white_space(y.last()) {
        let t = y.drop_last();
        assert(j < y.len() - 1);
        assert(t[j] == y[j]);
        lemma_trim_end_nonempty(t, j);
    }
}

/// A text with a character that is not white space is not blank.
pub proof fn lemma_not_blank(x: Seq<char>, k: int)
    requires
        0 <= k < x.len(),
        !is_white_space(x[k]),
    ensures
        trim(x).len() > 0,
{
    lemma_trim_start_keeps(x, k);
    let t = trim_start(x);
    let j = choose|j: int| 0 <= j < t.len() && !is_white_space(#[trigger] t[j]);
    lemma_trim_end_nonempty(t, j);
}

/// Trimming a text that is not blank leaves a text that is not blank.
pub proof fn lemma_trimmed_not_blank(x: Seq<char>)
    requires
        trim(x).len() > 0,
    ensures
        trim(trim(x)).len() > 0,
{
    lemma_trim_edges(x);
    lemma_not_blank(trim(x), 0);
}

} // verus!
