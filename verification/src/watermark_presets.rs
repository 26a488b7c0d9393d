//! The rules of saved watermark presets: names, colours, text marks and asset paths.
use vstd::prelude::*;

use crate::media::{split_on, split_on_chars};
use crate::text::{
    all_white, ascii_alnum, ascii_digit, ascii_hex, ascii_lower, ascii_lowercase, ascii_lowercase_chars,
    chars_eq, chars_of, concat_str, contains_char, contains_exec, contains_seq, has_prefix, is_ascii_alphanumeric,
    is_ascii_digit, is_ascii_hexdigit, slice_chars, string_of, strip_prefix_chars, trim, trim_chars, views,
};

verus! {

broadcast use vstd::string::group_string_axioms;

/// The version written into a preset's manifest.
pub const FORMAT_VERSION: u32 = 1;

/// Longest text mark, in UTF-8 bytes.
pub const MAX_TEXT_BYTES: usize = 16384;

/// FFmpeg's named colours, separated by single spaces.
pub const COLOUR_NAMES: &'static str = "AliceBlue AntiqueWhite Aqua Aquamarine Azure Beige Bisque Black BlanchedAlmond Blue BlueViolet Brown BurlyWood CadetBlue Chartreuse Chocolate Coral CornflowerBlue Cornsilk Crimson Cyan DarkBlue DarkCyan DarkGoldenRod DarkGray DarkGreen DarkKhaki DarkMagenta DarkOliveGreen DarkOrange DarkOrchid DarkRed DarkSalmon DarkSeaGreen DarkSlateBlue DarkSlateGray DarkTurquoise DarkViolet DeepPink DeepSkyBlue DimGray DodgerBlue FireBrick FloralWhite ForestGreen Fuchsia Gainsboro GhostWhite Gold GoldenRod Gray Green GreenYellow HoneyDew HotPink IndianRed Indigo Ivory Khaki Lavender LavenderBlush LawnGreen LemonChiffon LightBlue LightCoral LightCyan LightGoldenRodYellow LightGreen LightGrey LightPink LightSalmon LightSeaGreen LightSkyBlue LightSlateGray LightSteelBlue LightYellow Lime LimeGreen Linen Magenta Maroon MediumAquaMarine MediumBlue MediumOrchid MediumPurple MediumSeaGreen MediumSlateBlue MediumSpringGreen MediumTurquoise MediumVioletRed MidnightBlue MintCream MistyRose Moccasin NavajoWhite Navy OldLace Olive OliveDrab Orange OrangeRed Orchid PaleGoldenRod PaleGreen PaleTurquoise PaleVioletRed PapayaWhip PeachPuff Peru Pink Plum PowderBlue Purple Red RosyBrown RoyalBlue SaddleBrown Salmon SandyBrown SeaGreen SeaShell Sienna Silver SkyBlue SlateBlue SlateGray Snow SpringGreen SteelBlue Tan Teal Thistle Tomato Turquoise Violet Wheat White WhiteSmoke Yellow YellowGreen";

pub open spec fn name_char(c: char) -> bool {
    ascii_lower(c) || ascii_digit(c) || c == '-' || c == '_'
}

/// A preset name: 1 to 64 lowercase ASCII letters, digits, `-` or `_`, starting with
/// a letter or digit.
pub open spec fn valid_name(name: Seq<char>) -> bool {
    &&& 1 <= name.len() <= 64
    &&& ascii_alnum(name[0])
    &&& forall|k: int| 0 <= k < name.len() ==> name_char(#[trigger] name[k])
}

/// Checks a preset name.
pub fn validate_name(name: &str) -> (r: Result<(), String>)
    ensures
        r is Ok <==> valid_name(name@),
        r matches Err(e) ==> e@
            == "watermark name must be 1-64 lowercase ASCII letters, digits, hyphens or underscores, starting with a letter or digit"@,
{
    let n = chars_of(name);
    let mut ok = n.len() >= 1 && n.len() <= 64 && is_ascii_alphanumeric(n[0]);
    let mut k: usize = 0;
    while ok && k < n.len()
        invariant
            k <= n.len(),
            n@ == name@,
            ok ==> 1 <= n@.len() <= 64 && ascii_alnum(n@[0]),
            ok ==> forall|j: int| 0 <= j < k ==> name_char(#[trigger] n@[j]),
            !ok ==> !valid_name(name@),
        decreases n.len() - k, (if ok { 1int } else { 0int }),
    {
        let c = n[k];
        if !((c >= 'a' && c <= 'z') || is_ascii_digit(c) || c == '-' || c == '_') {
            assert(!name_char(n@[k as int]));
            ok = false;
        } else {
            k += 1;
        }
    }
    if ok {
        Ok(())
    } else {
        Err(string_of(&chars_of(
            "watermark name must be 1-64 lowercase ASCII letters, digits, hyphens or underscores, starting with a letter or digit",
        )))
    }
}

/// `#` or `0x` and six or eight hex digits.
pub open spec fn hex_colour(colour: Seq<char>) -> Option<bool> {
    let hex = if has_prefix(colour, "#"@) {
        Some(colour.subrange(1, colour.len() as int))
    } else if has_prefix(colour, "0x"@) {
        Some(colour.subrange(2, colour.len() as int))
    } else {
        None
    };
    match hex {
        Some(h) => Some(hex_digits(h)),
        None => None,
    }
}

/// Six or eight hex digits.
pub open spec fn hex_digits(h: Seq<char>) -> bool {
    (h.len() == 6 || h.len() == 8) && forall|k: int| 0 <= k < h.len() ==> ascii_hex(#[trigger] h[k])
}

/// One of FFmpeg's colour names, ignoring ASCII case.
pub open spec fn named_colour(colour: Seq<char>) -> bool {
    exists|k: int|
        0 <= k < split_on(COLOUR_NAMES@, ' ').len() && #[trigger] ascii_lowercase(split_on(COLOUR_NAMES@, ' ')[k])
            == ascii_lowercase(colour)
}

/// A watermark colour: hex digits after `#` or `0x`, or a named colour.
pub open spec fn valid_colour(colour: Seq<char>) -> bool {
    match hex_colour(colour) {
        Some(ok) => ok,
        None => named_colour(colour),
    }
}

fn all_hex(h: &Vec<char>) -> (r: bool)
    ensures
        r == forall|k: int| 0 <= k < h@.len() ==> ascii_hex(#[trigger] h@[k]),
{
    let mut k: usize = 0;
    while k < h.len()
        invariant
            k <= h.len(),
            forall|j: int| 0 <= j < k ==> ascii_hex(#[trigger] h@[j]),
        decreases h.len() - k,
    {
        if !is_ascii_hexdigit(h[k]) {
            return false;
        }
        k += 1;
    }
    true
}

/// Whether `colour` (already trimmed) is a hex or named FFmpeg colour.
pub fn is_valid_colour(colour: &str) -> (r: bool)
    ensures
        r == valid_colour(colour@),
{
    let c = chars_of(colour);
    proof {
        reveal_strlit("#");
        reveal_strlit("0x");
    }
    if crate::text::starts_with(&c, &chars_of("#")) {
        let h = slice_chars(&c, 1, c.len());
        assert(hex_colour(colour@) == Some(hex_digits(h@)));
        return (h.len() == 6 || h.len() == 8) && all_hex(&h);
    }
    if crate::text::starts_with(&c, &chars_of("0x")) {
        let h = slice_chars(&c, 2, c.len());
        assert(hex_colour(colour@) == Some(hex_digits(h@)));
        return (h.len() == 6 || h.len() == 8) && all_hex(&h);
    }
    assert(hex_colour(colour@) is None);
    let names = split_on_chars(&chars_of(COLOUR_NAMES), ' ');
    let wanted = ascii_lowercase_chars(&c);
    let mut k: usize = 0;
    while k < names.len()
        invariant
            k <= names.len(),
            views(names@) == split_on(COLOUR_NAMES@, ' '),
            wanted@ == ascii_lowercase(colour@),
            hex_colour(colour@) is None,
            forall|j: int| 0 <= j < k ==> ascii_lowercase(#[trigger] split_on(COLOUR_NAMES@, ' ')[j]) != ascii_lowercase(colour@),
        decreases names.len() - k,
    {
        assert(views(names@)[k as int] == names@[k as int]@);
        let lowered = ascii_lowercase_chars(&names[k]);
        if chars_eq(&lowered, &wanted) {
            assert(split_on(COLOUR_NAMES@, ' ')[k as int] == names@[k as int]@);
            assert(ascii_lowercase(split_on(COLOUR_NAMES@, ' ')[k as int]) == ascii_lowercase(colour@));
            assert(named_colour(colour@));
            return true;
        }
        k += 1;
    }
    false
}

/// The number of bytes `c` takes in UTF-8.
pub open spec fn utf8_width(c: char) -> int {
    if (c as u32) < 0x80 {
        1
    } else if (c as u32) < 0x800 {
        2
    } else if (c as u32) < 0x10000 {
        3
    } else {
        4
    }
}

/// The UTF-8 length of `s` in bytes.
pub open spec fn utf8_len(s: Seq<char>) -> int
    decreases s.len(),
{
    if s.len() == 0 {
        0
    } else {
        utf8_len(s.drop_last()) + utf8_width(s.last())
    }
}

/// A text mark as it is kept: trimmed, non-empty, free of NUL, at most 16384 bytes.
pub fn normalise_text_mark(text: &str) -> (r: Result<String, String>)
    ensures
        ({
            let t = trim(text@);
            match r {
                Ok(s) => s@ == t && t.len() > 0 && utf8_len(t) <= MAX_TEXT_BYTES && !t.contains('\0'),
                Err(e) => !(t.len() > 0 && utf8_len(t) <= MAX_TEXT_BYTES && !t.contains('\0')) && e@
                    == "text watermark must be non-empty, contain no NUL, and be at most 16384 bytes"@,
            }
        }),
{
    let t = trim_chars(&chars_of(text));
    let mut bytes: usize = 0;
    let mut k: usize = 0;
    while k < t.len() && bytes <= MAX_TEXT_BYTES
        invariant
            k <= t.len(),
            bytes == utf8_len(t@.subrange(0, k as int)),
            bytes <= MAX_TEXT_BYTES + 4,
        decreases t.len() - k,
    {
        let code = t[k] as u32;
        let width: usize = if code < 0x80 {
            1
        } else if code < 0x800 {
            2
        } else if code < 0x10000 {
            3
        } else {
            4
        };
        proof {
            let prefix = t@.subrange(0, k as int + 1);
            assert(prefix.drop_last() =~= t@.subrange(0, k as int));
            assert(prefix.last() == t@[k as int]);
        }
        bytes = bytes + width;
        k += 1;
    }
    proof {
        if k < t.len() {
            lemma_utf8_len_grows(t@, k as int);
        } else {
            assert(t@.subrange(0, t.len() as int) =~= t@);
        }
    }
    if t.len() == 0 || bytes > MAX_TEXT_BYTES || contains_char(&t, '\0') {
        return Err(string_of(&chars_of("text watermark must be non-empty, contain no NUL, and be at most 16384 bytes")));
    }
    Ok(string_of(&t))
}

proof fn lemma_utf8_len_grows(s: Seq<char>, k: int)
    requires
        0 <= k <= s.len(),
    ensures
        utf8_len(s) >= utf8_len(s.subrange(0, k)),
    decreases s.len() - k,
{
    if k < s.len() {
        lemma_utf8_len_grows(s, k + 1);
        let prefix = s.subrange(0, k + 1);
        assert(prefix.drop_last() =~= s.subrange(0, k));
    } else {
        assert(s.subrange(0, k) =~= s);
    }
}

/// The file name of an asset recorded as `assets/<name>`: a non-empty name with no
/// path separator and no `..`.
pub open spec fn asset_name(asset: Seq<char>) -> Result<Seq<char>, Seq<char>> {
    if !has_prefix(asset, "assets/"@) {
        Err("watermark asset must be inside assets/"@)
    } else {
        let f = asset.subrange(7, asset.len() as int);
        if f.len() == 0 || f.contains('/') || f.contains('\\') || contains_seq(f, ".."@) {
            Err("invalid watermark asset path: "@ + asset)
        } else {
            Ok(f)
        }
    }
}

/// The file name of an asset path from a manifest.
pub fn asset_filename(asset: &str) -> (r: Result<String, String>)
    ensures
        match r {
            Ok(f) => asset_name(asset@) == Ok::<Seq<char>, Seq<char>>(f@),
            Err(e) => asset_name(asset@) == Err::<Seq<char>, Seq<char>>(e@),
        },
{
    let a = chars_of(asset);
    proof {
        reveal_strlit("assets/");
    }
    let f = match strip_prefix_chars(&a, &chars_of("assets/")) {
        Some(f) => f,
        None => return Err(string_of(&chars_of("watermark asset must be inside assets/"))),
    };
    if f.len() == 0 || contains_char(&f, '/') || contains_char(&f, '\\') || contains_exec(&f, &chars_of("..")) {
        return Err(concat_str("invalid watermark asset path: ", asset));
    }
    Ok(string_of(&f))
}

/// A font asset's extension (lower-cased): TrueType or OpenType, single or collection.
pub fn font_asset_extension(extension: &str) -> (r: Result<String, String>)
    ensures
        r is Ok <==> (extension@ == "ttf"@ || extension@ == "ttc"@ || extension@ == "otf"@ || extension@ == "otc"@),
        r matches Ok(e) ==> e@ == extension@,
        r matches Err(e) ==> e@ == "watermark font asset must be a TTF, TTC, OTF or OTC file"@,
{
    let e = extension;
    if crate::text::str_eq(e, "ttf") || crate::text::str_eq(e, "ttc") || crate::text::str_eq(e, "otf")
        || crate::text::str_eq(e, "otc") {
        Ok(string_of(&chars_of(e)))
    } else {
        Err(string_of(&chars_of("watermark font asset must be a TTF, TTC, OTF or OTC file")))
    }
}

/// The image formats a preset may hold.
pub open spec fn image_asset_ext(e: Seq<char>) -> bool {
    e == "png"@ || e == "jpg"@ || e == "jpeg"@ || e == "webp"@ || e == "gif"@ || e == "bmp"@ || e == "tif"@
        || e == "tiff"@ || e == "svg"@ || e == "svgz"@ || e == "ppm"@ || e == "pgm"@ || e == "pbm"@ || e
        == "pnm"@
}

/// An image asset's extension (lower-cased).
pub fn image_asset_extension(extension: &str) -> (r: Result<String, String>)
    ensures
        r is Ok <==> image_asset_ext(extension@),
        r matches Ok(e) ==> e@ == extension@,
        r matches Err(e) ==> e@ == "unsupported watermark image extension: "@ + extension@,
{
    let e = extension;
    let known = crate::text::str_eq(e, "png") || crate::text::str_eq(e, "jpg") || crate::text::str_eq(e, "jpeg")
        || crate::text::str_eq(e, "webp") || crate::text::str_eq(e, "gif") || crate::text::str_eq(e, "bmp")
        || crate::text::str_eq(e, "tif") || crate::text::str_eq(e, "tiff") || crate::text::str_eq(e, "svg")
        || crate::text::str_eq(e, "svgz") || crate::text::str_eq(e, "ppm") || crate::text::str_eq(e, "pgm")
        || crate::text::str_eq(e, "pbm") || crate::text::str_eq(e, "pnm");
    if known {
        Ok(string_of(&chars_of(e)))
    } else {
        Err(concat_str("unsupported watermark image extension: ", e))
    }
}

/// Why a style is refused, apart from its opacity and font files: size, margin and
/// outline width bounds, the two colours, and a font name that is blank or holds a
/// control character.
pub open spec fn style_error(
    size: u32,
    margin: u32,
    outline_width: u32,
    colour: Seq<char>,
    outline_colour: Seq<char>,
    font: Option<Seq<char>>,
) -> Option<Seq<char>> {
    if size > 16384 || margin > 16384 || outline_width > 1024 {
        Some("watermark size and margin must be at most 16384; outline width at most 1024"@)
    } else if !valid_colour(trim(colour)) {
        Some("watermark colour must be a named FFmpeg colour or #RRGGBB/#RRGGBBAA"@)
    } else if !valid_colour(trim(outline_colour)) {
        Some("watermark outline colour must be a named FFmpeg colour or #RRGGBB/#RRGGBBAA"@)
    } else if font is Some && (all_white(font->Some_0) || exists|k: int|
        0 <= k < font->Some_0.len() && #[trigger] crate::text::is_control_char(font->Some_0[k])) {
        Some("watermark font must be a non-empty font family or font file path"@)
    } else {
        None
    }
}

/// Checks a watermark style's bounds, colours and font name.
pub fn validate_style_values(
    size: u32,
    margin: u32,
    outline_width: u32,
    colour: &str,
    outline_colour: &str,
    font: Option<&str>,
) -> (r: Result<(), String>)
    ensures
        match r {
            Ok(()) => style_error(size, margin, outline_width, colour@, outline_colour@, crate::text::opt_str(font)) is None,
            Err(e) => style_error(size, margin, outline_width, colour@, outline_colour@, crate::text::opt_str(font))
                == Some(e@),
        },
{
    if size > 16384 || margin > 16384 || outline_width > 1024 {
        return Err(string_of(&chars_of("watermark size and margin must be at most 16384; outline width at most 1024")));
    }
    if !is_valid_colour(string_of(&trim_chars(&chars_of(colour))).as_str()) {
        return Err(string_of(&chars_of("watermark colour must be a named FFmpeg colour or #RRGGBB/#RRGGBBAA")));
    }
    if !is_valid_colour(string_of(&trim_chars(&chars_of(outline_colour))).as_str()) {
        return Err(string_of(&chars_of("watermark outline colour must be a named FFmpeg colour or #RRGGBB/#RRGGBBAA")));
    }
    if let Some(f) = font {
        let c = chars_of(f);
        let mut control = false;
        let mut k: usize = 0;
        while k < c.len()
            invariant
                k <= c.len(),
                control == exists|j: int| 0 <= j < k && #[trigger] crate::text::is_control_char(c@[j]),
            decreases c.len() - k,
        {
            if crate::text::is_control(c[k]) {
                control = true;
            }
            k += 1;
        }
        if crate::text::is_blank(&c) || control {
            return Err(string_of(&chars_of("watermark font must be a non-empty font family or font file path")));
        }
    }
    Ok(())
}

} // verus!
