//! ffmpeg filter text: escaping option values, the `subtitles` filter with its
//! style overrides, and CSS-like colours in ASS `&HAABBGGRR` form.
use vstd::prelude::*;

use crate::text::{
    ascii_hex, ascii_lowercase, ascii_lowercase_chars, chars_of, decimal, extend_chars,
    has_prefix, has_suffix, is_ascii_hexdigit, is_white_space, is_whitespace, join, join_chars,
    parse_unsigned, parsed_unsigned, push_decimal, slice_chars, starts_with, ends_with, str_eq,
    string_of, trim, trim_chars, views, chars_eq, lemma_trim_start_at, lemma_trim_end_at, trim_start,
    trim_end,
};

verus! {

broadcast use vstd::string::group_string_axioms;

// ---------------------------------------------------------------------------
// Escaping.
// ---------------------------------------------------------------------------

/// Characters that need a backslash inside a filter option.
pub open spec fn needs_escape(c: char, separators: Seq<char>) -> bool {
    c == '\\' || c == '\'' || is_white_space(c) || separators.contains(c)
}

/// Each character of `s` that needs it preceded by a backslash.
pub open spec fn escape_token(s: Seq<char>, separators: Seq<char>) -> Seq<char>
    decreases s.len(),
{
    if s.len() == 0 {
        seq![]
    } else {
        escape_token(s.drop_last(), separators) + (if needs_escape(s.last(), separators) {
            seq!['\\', s.last()]
        } else {
            seq![s.last()]
        })
    }
}

/// A value escaped for an option and then for the enclosing filtergraph.
pub open spec fn escaped_option(s: Seq<char>) -> Seq<char> {
    escape_token(escape_token(s, seq![':']), seq!['[', ']', ',', ';'])
}

/// What a reader of an escaped value gets back: a backslash makes the character after
/// it literal and is itself dropped.
pub open spec fn unescaped(s: Seq<char>) -> Seq<char>
    decreases s.len(),
{
    if s.len() == 0 {
        seq![]
    } else if s[0] == '\\' && s.len() >= 2 {
        seq![s[1]] + unescaped(s.subrange(2, s.len() as int))
    } else {
        seq![s[0]] + unescaped(s.subrange(1, s.len() as int))
    }
}

/// Escaping a text is escaping its parts, one after the other.
proof fn lemma_escape_concat(a: Seq<char>, b: Seq<char>, separators: Seq<char>)
    ensures
        escape_token(a + b, separators) == escape_token(a, separators) + escape_token(b, separators),
    decreases b.len(),
{
    if b.len() == 0 {
        assert(a + b =~= a);
        assert(escape_token(a, separators) + escape_token(b, separators) =~= escape_token(a, separators));
    } else {
        lemma_escape_concat(a, b.drop_last(), separators);
        assert((a + b).drop_last() =~= a + b.drop_last());
        assert((a + b).last() == b.last());
        let piece = if needs_escape(b.last(), separators) {
            seq!['\\', b.last()]
        } else {
            seq![b.last()]
        };
        assert(escape_token(a, separators) + escape_token(b.drop_last(), separators) + piece
            =~= escape_token(a, separators) + (escape_token(b.drop_last(), separators) + piece));
    }
}

/// Reading an escaped token gives back the token.
pub proof fn lemma_unescape_token(s: Seq<char>, separators: Seq<char>)
    ensures
        unescaped(escape_token(s, separators)) == s,
    decreases s.len(),
{
    if s.len() > 0 {
        let rest = s.drop_first();
        let head = seq![s[0]];
        assert(head + rest =~= s);
        lemma_escape_concat(head, rest, separators);
        assert(head.drop_last() =~= Seq::<char>::empty());
        assert(escape_token(Seq::<char>::empty(), separators) =~= Seq::<char>::empty());
        assert(escape_token(head.drop_last(), separators) =~= Seq::<char>::empty());
        assert(head.last() == s[0]);
        let e = escape_token(rest, separators);
        lemma_unescape_token(rest, separators);
        if needs_escape(s[0], separators) {
            assert(escape_token(head, separators) =~= seq!['\\', s[0]]);
            let t = seq!['\\', s[0]] + e;
            assert(t.subrange(2, t.len() as int) =~= e);
            assert(t[1] == s[0]);
        } else {
            assert(escape_token(head, separators) =~= seq![s[0]]);
            let t = seq![s[0]] + e;
            assert(s[0] != '\\');
            assert(t.subrange(1, t.len() as int) =~= e);
        }
        assert(seq![s[0]] + rest =~= s);
    }
}

/// Escaping for the option and then for the filtergraph is undone by reading it back
/// twice: the filtergraph parser and then the option parser see the value as it was,
/// so none of its separators, quotes, backslashes or spaces splits the graph.
pub proof fn lemma_escaped_option_reads_back(value: Seq<char>)
    ensures
        unescaped(unescaped(escaped_option(value))) == value,
{
    lemma_unescape_token(escape_token(value, seq![':']), seq!['[', ']', ',', ';']);
    lemma_unescape_token(value, seq![':']);
}

fn escape_token_chars(s: &[char], separators: &[char]) -> (r: Vec<char>)
    ensures
        r@ == escape_token(s@, separators@),
{
    let mut out: Vec<char> = Vec::new();
    let mut i: usize = 0;
    while i < s.len()
        invariant
            i <= s.len(),
            out@ == escape_token(s@.subrange(0, i as int), separators@),
        decreases s.len() - i,
    {
        let c = s[i];
        let mut separator = false;
        let mut k: usize = 0;
        while k < separators.len()
            invariant
                k <= separators.len(),
                separator == (exists|j: int| 0 <= j < k && separators@[j] == c),
            decreases separators.len() - k,
        {
            if separators[k] == c {
                separator = true;
            }
            k += 1;
        }
        proof {
            if separator {
                let j = choose|j: int| 0 <= j < separators.len() && separators@[j] == c;
                assert(separators@.contains(c));
            } else {
                assert(!separators@.contains(c));
            }
        }
        if c == '\\' || c == '\'' || is_whitespace(c) || separator {
            out.push('\\');
        }
        out.push(c);
        i += 1;
        proof {
            let prefix = s@.subrange(0, i as int);
            assert(prefix.drop_last() =~= s@.subrange(0, i - 1));
            assert(prefix.last() == c);
        }
        assert(out@ =~= escape_token(s@.subrange(0, i as int), separators@));
    }
    assert(s@.subrange(0, s.len() as int) =~= s@);
    out
}

/// Escapes `value` for use as a filter option inside a filtergraph.
pub fn escape_filter_option(value: &str) -> (r: String)
    ensures
        r@ == escaped_option(value@),
{
    let chars = chars_of(value);
    let colon = vec![':'];
    let first = escape_token_chars(&chars, &colon);
    let graph = vec!['[', ']', ',', ';'];
    let second = escape_token_chars(&first, &graph);
    assert(colon@ =~= seq![':']);
    assert(graph@ =~= seq!['[', ']', ',', ';']);
    string_of(&second)
}

// ---------------------------------------------------------------------------
// Colours.
// ---------------------------------------------------------------------------

pub open spec fn hex_value(c: char) -> int {
    if '0' <= c && c <= '9' {
        c as int - '0' as int
    } else if 'a' <= c && c <= 'f' {
        c as int - 'a' as int + 10
    } else {
        c as int - 'A' as int + 10
    }
}

/// The byte spelled by the two hex digits at `i`.
pub open spec fn hex_byte(s: Seq<char>, i: int) -> int {
    hex_value(s[i]) * 16 + hex_value(s[i + 1])
}

pub open spec fn upper_hex_digit(d: int) -> char {
    if d < 10 {
        (d + '0' as int) as char
    } else {
        (d - 10 + 'A' as int) as char
    }
}

/// A byte as two upper-case hex digits.
pub open spec fn hex2(b: int) -> Seq<char> {
    seq![upper_hex_digit(b / 16), upper_hex_digit(b % 16)]
}

/// `&HAABBGGRR`.
pub open spec fn ass_text(red: int, green: int, blue: int, alpha: int) -> Seq<char> {
    seq!['&', 'H'] + hex2(alpha) + hex2(blue) + hex2(green) + hex2(red)
}

/// `#RRGGBB` or `#RRGGBBAA` (CSS alpha, inverted for ASS).
pub open spec fn hex_colour(hex: Seq<char>) -> Option<Seq<char>> {
    if !(forall|k: int| 0 <= k < hex.len() ==> ascii_hex(#[trigger] hex[k])) {
        None
    } else if hex.len() == 6 {
        Some(ass_text(hex_byte(hex, 0), hex_byte(hex, 2), hex_byte(hex, 4), 0))
    } else if hex.len() == 8 {
        Some(ass_text(hex_byte(hex, 0), hex_byte(hex, 2), hex_byte(hex, 4), 255 - hex_byte(hex, 6)))
    } else {
        None
    }
}

/// `s` cut at every `sep`.
pub open spec fn split_on(s: Seq<char>, sep: char) -> Seq<Seq<char>>
    decreases s.len(),
{
    if s.len() == 0 {
        seq![seq![]]
    } else {
        let rest = split_on(s.drop_last(), sep);
        if s.last() == sep {
            rest.push(seq![])
        } else {
            rest.update(rest.len() - 1, rest.last().push(s.last()))
        }
    }
}

pub proof fn lemma_split_on_nonempty(s: Seq<char>, sep: char)
    ensures
        split_on(s, sep).len() >= 1,
    decreases s.len(),
{
    if s.len() > 0 {
        lemma_split_on_nonempty(s.drop_last(), sep);
    }
}

/// `rgb(r, g, b)` with three channels that each parse as `u8`.
pub open spec fn rgb_colour(value: Seq<char>) -> Option<Seq<char>> {
    let lower = ascii_lowercase(value);
    if has_prefix(lower, "rgb("@) && has_suffix(lower.subrange(4, lower.len() as int), ")"@) {
        let body = lower.subrange(4, lower.len() - 1);
        let channels = split_on(body, ',');
        if channels.len() == 3 && (forall|k: int|
            0 <= k < 3 ==> #[trigger] parsed_unsigned(trim(channels[k]), 255) is Some) {
            Some(
                ass_text(
                    parsed_unsigned(trim(channels[0]), 255).unwrap(),
                    parsed_unsigned(trim(channels[1]), 255).unwrap(),
                    parsed_unsigned(trim(channels[2]), 255).unwrap(),
                    0,
                ),
            )
        } else {
            None
        }
    } else {
        None
    }
}

/// A named colour's red, green and blue.
pub open spec fn named_colour(name: Seq<char>) -> Option<(int, int, int)> {
    if name == "black"@ {
        Some((0, 0, 0))
    } else if name == "white"@ {
        Some((255, 255, 255))
    } else if name == "yellow"@ {
        Some((255, 255, 0))
    } else if name == "red"@ {
        Some((255, 0, 0))
    } else if name == "green"@ {
        Some((0, 128, 0))
    } else if name == "lime"@ {
        Some((0, 255, 0))
    } else if name == "blue"@ {
        Some((0, 0, 255))
    } else if name == "cyan"@ || name == "aqua"@ {
        Some((0, 255, 255))
    } else if name == "magenta"@ || name == "fuchsia"@ {
        Some((255, 0, 255))
    } else {
        None
    }
}

/// A colour given as `#hex`, `rgb(...)` or a name, in ASS form.
pub open spec fn ass_colour_of(value: Seq<char>) -> Option<Seq<char>> {
    let t = trim(value);
    if t.len() == 0 {
        None
    } else if t.len() > 0 && t[0] == '#' {
        hex_colour(t.drop_first())
    } else if rgb_colour(t) is Some {
        rgb_colour(t)
    } else {
        match named_colour(ascii_lowercase(t)) {
            Some((r, g, b)) => Some(ass_text(r, g, b, 0)),
            None => None,
        }
    }
}

/// A text whose first and last characters are not white space is its own trim.
proof fn lemma_untrimmed(s: Seq<char>)
    requires
        s.len() > 0,
        !is_white_space(s[0]),
        !is_white_space(s.last()),
    ensures
        trim(s) == s,
{
    lemma_trim_start_at(s, 0);
    assert(s.subrange(0, s.len() as int) =~= s);
    lemma_trim_end_at(s, s.len() as int);
}

/// A colour written as a plain lower-case word is read as a name.
proof fn lemma_colour_word(s: Seq<char>)
    requires
        s.len() > 0,
        forall|k: int| 0 <= k < s.len() ==> 'a' <= #[trigger] s[k] <= 'z',
    ensures
        ass_colour_of(s) == match named_colour(s) {
            Some((r, g, b)) => Some(ass_text(r, g, b, 0)),
            None => None,
        },
{
    reveal(is_white_space);
    assert('a' <= s[0] <= 'z');
    assert('a' <= s.last() <= 'z');
    lemma_untrimmed(s);
    assert(ascii_lowercase(s) =~= s);
    reveal_strlit("rgb(");
    if has_prefix(s, "rgb("@) {
        assert(s[3] == "rgb("@[3]);
    }
}

/// A colour written `#` and six hex digits is read as that red, green and blue.
proof fn lemma_colour_hex6(s: Seq<char>)
    requires
        s.len() == 7,
        s[0] == '#',
        forall|k: int| 1 <= k < 7 ==> ascii_hex(#[trigger] s[k]),
    ensures
        ass_colour_of(s) == Some(ass_text(hex_byte(s.drop_first(), 0), hex_byte(s.drop_first(), 2), hex_byte(s.drop_first(), 4), 0)),
{
    reveal(is_white_space);
    assert(ascii_hex(s[6]));
    lemma_untrimmed(s);
    let h = s.drop_first();
    assert forall|k: int| 0 <= k < h.len() implies ascii_hex(#[trigger] h[k]) by {
        assert(h[k] == s[k + 1]);
    }
}

/// A hex digit in upper case.
pub open spec fn upper_hex_char(c: char) -> char {
    if 'a' <= c && c <= 'f' {
        ((c as int) - 32) as char
    } else {
        c
    }
}

proof fn lemma_hex_digit_round_trip(c: char)
    requires
        ascii_hex(c),
    ensures
        0 <= hex_value(c) < 16,
        upper_hex_digit(hex_value(c)) == upper_hex_char(c),
{
}

proof fn lemma_hex_pair(a: char, b: char)
    requires
        ascii_hex(a),
        ascii_hex(b),
    ensures
        hex2(hex_value(a) * 16 + hex_value(b)) == seq![upper_hex_char(a), upper_hex_char(b)],
{
    lemma_hex_digit_round_trip(a);
    lemma_hex_digit_round_trip(b);
    let x = hex_value(a);
    let y = hex_value(b);
    assert((x * 16 + y) / 16 == x && (x * 16 + y) % 16 == y) by (nonlinear_arith)
        requires
            0 <= x < 16,
            0 <= y < 16,
    ;
}

/// A `#rrggbb` colour becomes `&H00BBGGRR`: alpha `00`, then the blue, green and red
/// digit pairs of the input in reverse pair order, in upper case.
pub proof fn lemma_hex_colour_digits(h: Seq<char>)
    requires
        h.len() == 6,
        forall|k: int| 0 <= k < 6 ==> ascii_hex(#[trigger] h[k]),
    ensures
        ass_colour_of(seq!['#'] + h) == Some(
            seq!['&', 'H', '0', '0', upper_hex_char(h[4]), upper_hex_char(h[5]), upper_hex_char(h[2]), upper_hex_char(h[3]), upper_hex_char(h[0]), upper_hex_char(h[1])],
        ),
{
    let s = seq!['#'] + h;
    assert forall|k: int| 1 <= k < 7 implies ascii_hex(#[trigger] s[k]) by {
        assert(s[k] == h[k - 1]);
    }
    lemma_colour_hex6(s);
    assert(s.drop_first() =~= h);
    assert(ascii_hex(h[0]) && ascii_hex(h[1]) && ascii_hex(h[2]) && ascii_hex(h[3]) && ascii_hex(h[4]) && ascii_hex(h[5]));
    lemma_hex_pair(h[0], h[1]);
    lemma_hex_pair(h[2], h[3]);
    lemma_hex_pair(h[4], h[5]);
    lemma_hex_pair('0', '0');
    assert(hex_value('0') * 16 + hex_value('0') == 0);
    assert(ass_text(hex_byte(h, 0), hex_byte(h, 2), hex_byte(h, 4), 0) =~= seq!['&', 'H', '0', '0', upper_hex_char(h[4]), upper_hex_char(h[5]), upper_hex_char(h[2]), upper_hex_char(h[3]), upper_hex_char(h[0]), upper_hex_char(h[1])]);
}

/// The names `named_colour` knows, each with its own red, green and blue.
proof fn lemma_named_colour_known(name: Seq<char>)
    ensures
        name == "black"@ ==> named_colour(name) == Some((0int, 0int, 0int)),
        name == "white"@ ==> named_colour(name) == Some((255int, 255int, 255int)),
        name == "yellow"@ ==> named_colour(name) == Some((255int, 255int, 0int)),
        name == "red"@ ==> named_colour(name) == Some((255int, 0int, 0int)),
        name == "green"@ ==> named_colour(name) == Some((0int, 128int, 0int)),
        name == "lime"@ ==> named_colour(name) == Some((0int, 255int, 0int)),
        name == "blue"@ ==> named_colour(name) == Some((0int, 0int, 255int)),
        name == "cyan"@ || name == "aqua"@ ==> named_colour(name) == Some((0int, 255int, 255int)),
        name == "magenta"@ || name == "fuchsia"@ ==> named_colour(name) == Some((255int, 0int, 255int)),
{
    reveal_strlit("black");
    reveal_strlit("white");
    reveal_strlit("yellow");
    reveal_strlit("red");
    reveal_strlit("green");
    reveal_strlit("lime");
    reveal_strlit("blue");
    reveal_strlit("cyan");
    reveal_strlit("aqua");
    reveal_strlit("magenta");
    reveal_strlit("fuchsia");
    assert("black"@.len() == 5 && "black"@[0] == 'b');
    assert("white"@.len() == 5 && "white"@[0] == 'w');
    assert("yellow"@.len() == 6 && "yellow"@[0] == 'y');
    assert("red"@.len() == 3 && "red"@[0] == 'r');
    assert("green"@.len() == 5 && "green"@[0] == 'g');
    assert("lime"@.len() == 4 && "lime"@[0] == 'l');
    assert("blue"@.len() == 4 && "blue"@[0] == 'b');
    assert("cyan"@.len() == 4 && "cyan"@[0] == 'c');
    assert("aqua"@.len() == 4 && "aqua"@[0] == 'a');
    assert("magenta"@.len() == 7 && "magenta"@[0] == 'm');
    assert("fuchsia"@.len() == 7 && "fuchsia"@[0] == 'f');
}

/// A colour name reads as the same ASS colour as a `#` hex value spelling its red,
/// green and blue.
proof fn lemma_name_as_hex(name: Seq<char>, hex: Seq<char>, r: int, g: int, b: int)
    requires
        name.len() > 0,
        forall|k: int| 0 <= k < name.len() ==> 'a' <= #[trigger] name[k] <= 'z',
        named_colour(name) == Some((r, g, b)),
        hex.len() == 7,
        hex[0] == '#',
        forall|k: int| 1 <= k < 7 ==> ascii_hex(#[trigger] hex[k]),
        hex_byte(hex.drop_first(), 0) == r,
        hex_byte(hex.drop_first(), 2) == g,
        hex_byte(hex.drop_first(), 4) == b,
    ensures
        ass_colour_of(name) == ass_colour_of(hex),
{
    lemma_colour_word(name);
    lemma_colour_hex6(hex);
}

/// Each colour name reads as the same ASS colour as its CSS hex value: black
/// `#000000`, white `#ffffff`, yellow `#ffff00`, red `#ff0000`, green `#008000`, lime
/// `#00ff00`, blue `#0000ff`, cyan and aqua `#00ffff`, magenta and fuchsia `#ff00ff`.
#[verifier::rlimit(60)]
pub proof fn lemma_named_colours_are_css_colours()
    ensures
        ass_colour_of("black"@) == ass_colour_of("#000000"@),
        ass_colour_of("white"@) == ass_colour_of("#ffffff"@),
        ass_colour_of("yellow"@) == ass_colour_of("#ffff00"@),
        ass_colour_of("red"@) == ass_colour_of("#ff0000"@),
        ass_colour_of("green"@) == ass_colour_of("#008000"@),
        ass_colour_of("lime"@) == ass_colour_of("#00ff00"@),
        ass_colour_of("blue"@) == ass_colour_of("#0000ff"@),
        ass_colour_of("cyan"@) == ass_colour_of("#00ffff"@),
        ass_colour_of("aqua"@) == ass_colour_of("#00ffff"@),
        ass_colour_of("magenta"@) == ass_colour_of("#ff00ff"@),
        ass_colour_of("fuchsia"@) == ass_colour_of("#ff00ff"@),
{
    assert(ass_colour_of("black"@) == ass_colour_of("#000000"@)) by {
        reveal_strlit("black");
        reveal_strlit("#000000");
        lemma_named_colour_known("black"@);
        lemma_name_as_hex("black"@, "#000000"@, 0, 0, 0);
    }
    assert(ass_colour_of("white"@) == ass_colour_of("#ffffff"@)) by {
        reveal_strlit("white");
        reveal_strlit("#ffffff");
        lemma_named_colour_known("white"@);
        lemma_name_as_hex("white"@, "#ffffff"@, 255, 255, 255);
    }
    assert(ass_colour_of("yellow"@) == ass_colour_of("#ffff00"@)) by {
        reveal_strlit("yellow");
        reveal_strlit("#ffff00");
        lemma_named_colour_known("yellow"@);
        lemma_name_as_hex("yellow"@, "#ffff00"@, 255, 255, 0);
    }
    assert(ass_colour_of("red"@) == ass_colour_of("#ff0000"@)) by {
        reveal_strlit("red");
        reveal_strlit("#ff0000");
        lemma_named_colour_known("red"@);
        lemma_name_as_hex("red"@, "#ff0000"@, 255, 0, 0);
    }
    assert(ass_colour_of("green"@) == ass_colour_of("#008000"@)) by {
        reveal_strlit("green");
        reveal_strlit("#008000");
        lemma_named_colour_known("green"@);
        lemma_name_as_hex("green"@, "#008000"@, 0, 128, 0);
    }
    assert(ass_colour_of("lime"@) == ass_colour_of("#00ff00"@)) by {
        reveal_strlit("lime");
        reveal_strlit("#00ff00");
        lemma_named_colour_known("lime"@);
        lemma_name_as_hex("lime"@, "#00ff00"@, 0, 255, 0);
    }
    assert(ass_colour_of("blue"@) == ass_colour_of("#0000ff"@)) by {
        reveal_strlit("blue");
        reveal_strlit("#0000ff");
        lemma_named_colour_known("blue"@);
        lemma_name_as_hex("blue"@, "#0000ff"@, 0, 0, 255);
    }
    assert(ass_colour_of("cyan"@) == ass_colour_of("#00ffff"@)) by {
        reveal_strlit("cyan");
        reveal_strlit("#00ffff");
        lemma_named_colour_known("cyan"@);
        lemma_name_as_hex("cyan"@, "#00ffff"@, 0, 255, 255);
    }
    assert(ass_colour_of("aqua"@) == ass_colour_of("#00ffff"@)) by {
        reveal_strlit("aqua");
        reveal_strlit("#00ffff");
        lemma_named_colour_known("aqua"@);
        lemma_name_as_hex("aqua"@, "#00ffff"@, 0, 255, 255);
    }
    assert(ass_colour_of("magenta"@) == ass_colour_of("#ff00ff"@)) by {
        reveal_strlit("magenta");
        reveal_strlit("#ff00ff");
        lemma_named_colour_known("magenta"@);
        lemma_name_as_hex("magenta"@, "#ff00ff"@, 255, 0, 255);
    }
    assert(ass_colour_of("fuchsia"@) == ass_colour_of("#ff00ff"@)) by {
        reveal_strlit("fuchsia");
        reveal_strlit("#ff00ff");
        lemma_named_colour_known("fuchsia"@);
        lemma_name_as_hex("fuchsia"@, "#ff00ff"@, 255, 0, 255);
    }
}

fn hex_digit_value(c: char) -> (r: u32)
    requires
        ascii_hex(c),
    ensures
        r == hex_value(c),
        r < 16,
{
    let code = c as u32;
    if '0' <= c && c <= '9' {
        code - 48
    } else if 'a' <= c && c <= 'f' {
        code - 87
    } else {
        code - 55
    }
}

fn upper_hex(d: u32) -> (c: char)
    requires
        d < 16,
    ensures
        c == upper_hex_digit(d as int),
{
    if d < 10 {
        let b: u8 = (d + 48) as u8;
        b as char
    } else {
        let b: u8 = (d + 55) as u8;
        b as char
    }
}

fn push_hex2(out: &mut Vec<char>, b: u32)
    requires
        b < 256,
    ensures
        final(out)@ == old(out)@ + hex2(b as int),
{
    out.push(upper_hex(b / 16));
    out.push(upper_hex(b % 16));
}

fn format_ass_colour(red: u32, green: u32, blue: u32, alpha: u32) -> (r: String)
    requires
        red < 256,
        green < 256,
        blue < 256,
        alpha < 256,
    ensures
        r@ == ass_text(red as int, green as int, blue as int, alpha as int),
{
    let mut out: Vec<char> = vec!['&', 'H'];
    push_hex2(&mut out, alpha);
    push_hex2(&mut out, blue);
    push_hex2(&mut out, green);
    push_hex2(&mut out, red);
    string_of(&out)
}

fn ass_colour_from_hex(hex: &[char]) -> (r: Option<String>)
    ensures
        match r {
            Some(s) => hex_colour(hex@) == Some(s@),
            None => hex_colour(hex@) is None,
        },
{
    let mut k: usize = 0;
    while k < hex.len()
        invariant
            k <= hex.len(),
            forall|j: int| 0 <= j < k ==> ascii_hex(#[trigger] hex@[j]),
        decreases hex.len() - k,
    {
        if !is_ascii_hexdigit(hex[k]) {
            return None;
        }
        k += 1;
    }
    if hex.len() != 6 && hex.len() != 8 {
        return None;
    }
    let red = hex_digit_value(hex[0]) * 16 + hex_digit_value(hex[1]);
    let green = hex_digit_value(hex[2]) * 16 + hex_digit_value(hex[3]);
    let blue = hex_digit_value(hex[4]) * 16 + hex_digit_value(hex[5]);
    let alpha = if hex.len() == 8 {
        255 - (hex_digit_value(hex[6]) * 16 + hex_digit_value(hex[7]))
    } else {
        0
    };
    Some(format_ass_colour(red, green, blue, alpha))
}

pub(crate) fn split_on_chars(s: &[char], sep: char) -> (r: Vec<Vec<char>>)
    ensures
        views(r@) == split_on(s@, sep),
{
    let mut parts: Vec<Vec<char>> = Vec::new();
    let mut current: Vec<char> = Vec::new();
    let mut i: usize = 0;
    while i < s.len()
        invariant
            i <= s.len(),
            views(parts@).push(current@) == split_on(s@.subrange(0, i as int), sep),
        decreases s.len() - i,
    {
        let ghost before = views(parts@).push(current@);
        if s[i] == sep {
            let finished = current;
            parts.push(finished);
            current = Vec::new();
            assert(views(parts@).push(current@) =~= before.push(seq![]));
        } else {
            current.push(s[i]);
            assert(views(parts@).push(current@) =~= before.update(
                before.len() - 1,
                before.last().push(s@[i as int]),
            ));
        }
        i += 1;
        proof {
            let prefix = s@.subrange(0, i as int);
            assert(prefix.drop_last() =~= s@.subrange(0, i - 1));
            assert(prefix.last() == s@[i - 1]);
        }
    }
    assert(s@.subrange(0, s.len() as int) =~= s@);
    parts.push(current);
    parts
}

fn ass_colour_from_rgb_function(value: &[char]) -> (r: Option<String>)
    ensures
        match r {
            Some(s) => rgb_colour(value@) == Some(s@),
            None => rgb_colour(value@) is None,
        },
{
    let v = slice_chars(value, 0, value.len());
    assert(v@ =~= value@);
    let lower = ascii_lowercase_chars(&v);
    let prefix = chars_of("rgb(");
    let close = chars_of(")");
    proof {
        reveal_strlit("rgb(");
        reveal_strlit(")");
    }
    if !starts_with(&lower, &prefix) {
        return None;
    }
    let after = slice_chars(&lower, 4, lower.len());
    if !ends_with(&after, &close) {
        return None;
    }
    let body = slice_chars(&lower, 4, lower.len() - 1);
    let channels = split_on_chars(&body, ',');
    let ghost chs = views(channels@);
    proof {
        assert(lower@ == ascii_lowercase(value@));
        assert(body@ == lower@.subrange(4, lower@.len() - 1));
        assert(chs == split_on(body@, ','));
    }
    if channels.len() != 3 {
        return None;
    }
    let mut values: Vec<u64> = Vec::new();
    let mut k: usize = 0;
    while k < 3
        invariant
            k <= 3,
            channels.len() == 3,
            chs == views(channels@),
            chs == split_on(ascii_lowercase(value@).subrange(4, value@.len() - 1), ','),
            value@.len() >= 5,
            has_prefix(ascii_lowercase(value@), "rgb("@),
            has_suffix(ascii_lowercase(value@).subrange(4, value@.len() as int), ")"@),
            values.len() == k,
            forall|j: int| 0 <= j < k ==> parsed_unsigned(trim(chs[j]), 255) == Some(values@[j] as int),
        decreases 3 - k,
    {
        let t = trim_chars(&channels[k]);
        assert(chs[k as int] == channels@[k as int]@);
        match parse_unsigned(&t, 255) {
            Some(n) => values.push(n),
            None => {
                assert(!(parsed_unsigned(trim(chs[k as int]), 255) is Some));
                return None;
            },
        }
        k += 1;
    }
    proof {
        assert forall|j: int| 0 <= j < 3 implies #[trigger] parsed_unsigned(trim(chs[j]), 255) is Some by {
            assert(parsed_unsigned(trim(chs[j]), 255) == Some(values@[j] as int));
        }
    }
    Some(format_ass_colour(values[0] as u32, values[1] as u32, values[2] as u32, 0))
}

/// A CSS-like colour (`#rrggbb`, `#rrggbbaa`, `rgb(r, g, b)` or a basic name) in
/// ASS `&HAABBGGRR` form; `None` for anything else.
pub fn ass_colour(value: &str) -> (r: Option<String>)
    ensures
        match r {
            Some(s) => ass_colour_of(value@) == Some(s@),
            None => ass_colour_of(value@) is None,
        },
{
    let chars = chars_of(value);
    let t = trim_chars(&chars);
    if t.len() == 0 {
        return None;
    }
    if t[0] == '#' {
        let hex = slice_chars(&t, 1, t.len());
        assert(hex@ =~= t@.drop_first());
        return ass_colour_from_hex(&hex);
    }
    if let Some(rgb) = ass_colour_from_rgb_function(&t) {
        return Some(rgb);
    }
    let lower = ascii_lowercase_chars(&t);
    let name = string_of(&lower);
    let rgb: Option<(u32, u32, u32)> = if str_eq(&name, "black") {
        Some((0, 0, 0))
    } else if str_eq(&name, "white") {
        Some((255, 255, 255))
    } else if str_eq(&name, "yellow") {
        Some((255, 255, 0))
    } else if str_eq(&name, "red") {
        Some((255, 0, 0))
    } else if str_eq(&name, "green") {
        Some((0, 128, 0))
    } else if str_eq(&name, "lime") {
        Some((0, 255, 0))
    } else if str_eq(&name, "blue") {
        Some((0, 0, 255))
    } else if str_eq(&name, "cyan") || str_eq(&name, "aqua") {
        Some((0, 255, 255))
    } else if str_eq(&name, "magenta") || str_eq(&name, "fuchsia") {
        Some((255, 0, 255))
    } else {
        None
    };
    match rgb {
        Some((r, g, b)) => Some(format_ass_colour(r, g, b, 0)),
        None => None,
    }
}

// ---------------------------------------------------------------------------
// The subtitles filter.
// ---------------------------------------------------------------------------

/// The `force_style` entries for the given overrides, in order.
pub open spec fn style_entries(
    font: Option<Seq<char>>,
    size: Option<u32>,
    outline_colour: Option<Seq<char>>,
    outline_width: Option<u32>,
) -> Seq<Seq<char>> {
    let font_part = match font {
        Some(f) => seq!["FontName="@ + f],
        None => seq![],
    };
    let size_part = match size {
        Some(s) => seq!["FontSize="@ + decimal(s as nat)],
        None => seq![],
    };
    let outline_part = match outline_width {
        Some(w) => seq!["BorderStyle=1"@, "Outline="@ + decimal(w as nat)] + match outline_colour {
            Some(c) => match ass_colour_of(c) {
                Some(a) => seq!["OutlineColour="@ + a],
                None => seq![],
            },
            None => seq![],
        },
        None => seq![],
    };
    font_part + size_part + outline_part
}

/// The `subtitles` filter for `path` with optional style overrides.
pub open spec fn subtitles_filter_text(
    path: Seq<char>,
    font: Option<Seq<char>>,
    size: Option<u32>,
    outline_colour: Option<Seq<char>>,
    outline_width: Option<u32>,
) -> Seq<char> {
    let base = "subtitles=filename="@ + escaped_option(path);
    let style = style_entries(font, size, outline_colour, outline_width);
    if style.len() == 0 {
        base
    } else {
        base + ":force_style="@ + escaped_option(join(style, seq![',']))
    }
}

fn prefixed(prefix: &str, value: &[char]) -> (r: Vec<char>)
    ensures
        r@ == prefix@ + value@,
{
    let mut out = chars_of(prefix);
    extend_chars(&mut out, value);
    out
}

fn prefixed_number(prefix: &str, n: u32) -> (r: Vec<char>)
    ensures
        r@ == prefix@ + decimal(n as nat),
{
    let mut out = chars_of(prefix);
    push_decimal(&mut out, n as u64);
    out
}

/// The `subtitles` filter that burns `path` in, with `force_style` overrides for
/// the font, the size and the outline when any is given.
pub fn subtitles_filter(
    path: &str,
    font: Option<&str>,
    size: Option<u32>,
    outline_colour: Option<&str>,
    outline_width: Option<u32>,
) -> (r: String)
    ensures
        r@ == subtitles_filter_text(
            path@,
            crate::text::opt_str(font),
            size,
            crate::text::opt_str(outline_colour),
            outline_width,
        ),
{
    let mut filter = chars_of("subtitles=filename=");
    let escaped_path = escape_filter_option(path);
    extend_chars(&mut filter, &chars_of(escaped_path.as_str()));
    let mut style: Vec<Vec<char>> = Vec::new();
    let ghost font_s = crate::text::opt_str(font);
    let ghost colour_s = crate::text::opt_str(outline_colour);
    if let Some(f) = font {
        style.push(prefixed("FontName=", &chars_of(f)));
    }
    if let Some(s) = size {
        style.push(prefixed_number("FontSize=", s));
    }
    if let Some(w) = outline_width {
        style.push(chars_of("BorderStyle=1"));
        style.push(prefixed_number("Outline=", w));
        if let Some(c) = outline_colour {
            if let Some(a) = ass_colour(c) {
                style.push(prefixed("OutlineColour=", &chars_of(a.as_str())));
            }
        }
    }
    assert(views(style@) =~= style_entries(font_s, size, colour_s, outline_width));
    if style.len() > 0 {
        extend_chars(&mut filter, &chars_of(":force_style="));
        let comma = vec![','];
        assert(comma@ =~= seq![',']);
        let joined = join_chars(&style, &comma);
        let escaped = escape_filter_option(&string_of(&joined));
        extend_chars(&mut filter, &chars_of(escaped.as_str()));
    }
    string_of(&filter)
}

} // verus!
