//! Watermark choices: where a mark is placed, what it is made of, the font names
//! known for it, and the escaping drawtext needs.
use vstd::prelude::*;

use crate::fonts::{extension_of, path_extension};
use crate::paths::{file_stem_of, path_file_stem, path_with_file_name, with_file_name};
use crate::text::{
    ascii_alnum, ascii_lowercase, ascii_lowercase_chars, ascii_to_lower, chars_of, concat3,
    decimal, decimal_chars, extend_chars, is_ascii_alphanumeric, str_eq, string_of,
    to_ascii_lowercase, trim, trim_chars,
};

verus! {

broadcast use vstd::string::group_string_axioms;

#[derive(Debug, Clone, Copy, PartialEq, Eq, Structural)]
pub enum WatermarkPosition {
    TopLeft,
    TopRight,
    BottomLeft,
    BottomRight,
    Center,
}

/// A watermark's content: text, or an image file.
#[derive(Debug, Clone)]
pub enum WatermarkSource {
    Text(String),
    Image(String),
}

/// Which renderer drew the watermark, and why the primary one was not used.
#[derive(Debug, Clone)]
pub struct WatermarkRendererReport {
    pub renderer: String,
    pub reasons: Vec<String>,
}

pub open spec fn position_label(p: WatermarkPosition) -> Seq<char> {
    match p {
        WatermarkPosition::TopLeft => "top-left"@,
        WatermarkPosition::TopRight => "top-right"@,
        WatermarkPosition::BottomLeft => "bottom-left"@,
        WatermarkPosition::BottomRight => "bottom-right"@,
        WatermarkPosition::Center => "center"@,
    }
}

/// The drawtext `x`/`y` expressions for a position and margin.
pub open spec fn drawtext_position(p: WatermarkPosition, margin: u32) -> (Seq<char>, Seq<char>) {
    let m = decimal(margin as nat);
    match p {
        WatermarkPosition::TopLeft => (m, m),
        WatermarkPosition::TopRight => ("w-text_w-"@ + m, m),
        WatermarkPosition::BottomLeft => (m, "h-text_h-"@ + m),
        WatermarkPosition::BottomRight => ("w-text_w-"@ + m, "h-text_h-"@ + m),
        WatermarkPosition::Center => ("(w-text_w)/2"@, "(h-text_h)/2"@),
    }
}

/// The overlay `x`/`y` expressions for a position and margin.
pub open spec fn overlay_position(p: WatermarkPosition, margin: u32) -> (Seq<char>, Seq<char>) {
    let m = decimal(margin as nat);
    match p {
        WatermarkPosition::TopLeft => (m, m),
        WatermarkPosition::TopRight => ("main_w-overlay_w-"@ + m, m),
        WatermarkPosition::BottomLeft => (m, "main_h-overlay_h-"@ + m),
        WatermarkPosition::BottomRight => ("main_w-overlay_w-"@ + m, "main_h-overlay_h-"@ + m),
        WatermarkPosition::Center => ("(main_w-overlay_w)/2"@, "(main_h-overlay_h)/2"@),
    }
}

/// Where an overlay goes, for every margin: left placements sit the margin from the
/// left edge and top placements the margin from the top; right placements share one
/// `x`, measured back from the right edge (`main_w-overlay_w-` and the margin), and
/// bottom placements share one `y`, measured back from the bottom edge
/// (`main_h-overlay_h-` and the margin); so no bottom placement has the `y` of a top
/// one, and no right placement the `x` of a left one.
pub proof fn lemma_overlay_corners(margin: u32)
    ensures
        ({
            let m = decimal(margin as nat);
            let tl = overlay_position(WatermarkPosition::TopLeft, margin);
            let tr = overlay_position(WatermarkPosition::TopRight, margin);
            let bl = overlay_position(WatermarkPosition::BottomLeft, margin);
            let br = overlay_position(WatermarkPosition::BottomRight, margin);
            &&& tl.0 == m && tl.1 == m
            &&& bl.0 == tl.0 && tr.1 == tl.1
            &&& br.0 == tr.0 && br.1 == bl.1
            &&& tr.0 == "main_w-overlay_w-"@ + m
            &&& bl.1 == "main_h-overlay_h-"@ + m
            &&& br.1 != tl.1 && br.1 != tr.1 && bl.1 != tl.1
            &&& br.0 != bl.0 && tr.0 != tl.0
        }),
{
    reveal_strlit("main_w-overlay_w-");
    reveal_strlit("main_h-overlay_h-");
    let m = decimal(margin as nat);
    assert(("main_h-overlay_h-"@ + m).len() > m.len());
    assert(("main_w-overlay_w-"@ + m).len() > m.len());
}

/// Where drawn text goes, for every margin: the same corner layout as an overlay, with
/// the right and bottom edges measured back by `w-text_w-` and `h-text_h-`.
pub proof fn lemma_drawtext_corners(margin: u32)
    ensures
        ({
            let m = decimal(margin as nat);
            let tl = drawtext_position(WatermarkPosition::TopLeft, margin);
            let tr = drawtext_position(WatermarkPosition::TopRight, margin);
            let bl = drawtext_position(WatermarkPosition::BottomLeft, margin);
            let br = drawtext_position(WatermarkPosition::BottomRight, margin);
            &&& tl.0 == m && tl.1 == m
            &&& bl.0 == tl.0 && tr.1 == tl.1
            &&& br.0 == tr.0 && br.1 == bl.1
            &&& tr.0 == "w-text_w-"@ + m
            &&& bl.1 == "h-text_h-"@ + m
            &&& br.1 != tl.1 && br.1 != tr.1 && bl.1 != tl.1
            &&& br.0 != bl.0 && tr.0 != tl.0
        }),
{
    reveal_strlit("w-text_w-");
    reveal_strlit("h-text_h-");
    let m = decimal(margin as nat);
    assert(("h-text_h-"@ + m).len() > m.len());
    assert(("w-text_w-"@ + m).len() > m.len());
}

fn prefixed_margin(prefix: &str, margin: u32) -> (r: String)
    ensures
        r@ == prefix@ + decimal(margin as nat),
{
    let mut v = chars_of(prefix);
    extend_chars(&mut v, &decimal_chars(margin as u64));
    string_of(&v)
}

impl WatermarkPosition {
    pub fn label(self) -> (r: &'static str)
        ensures
            r@ == position_label(self),
    {
        match self {
            WatermarkPosition::TopLeft => "top-left",
            WatermarkPosition::TopRight => "top-right",
            WatermarkPosition::BottomLeft => "bottom-left",
            WatermarkPosition::BottomRight => "bottom-right",
            WatermarkPosition::Center => "center",
        }
    }

    pub fn drawtext_xy(self, margin: u32) -> (r: (String, String))
        ensures
            (r.0@, r.1@) == drawtext_position(self, margin),
    {
        let m = string_of(&decimal_chars(margin as u64));
        match self {
            WatermarkPosition::TopLeft => (m.clone(), m),
            WatermarkPosition::TopRight => (prefixed_margin("w-text_w-", margin), m),
            WatermarkPosition::BottomLeft => (m, prefixed_margin("h-text_h-", margin)),
            WatermarkPosition::BottomRight => (
                prefixed_margin("w-text_w-", margin),
                prefixed_margin("h-text_h-", margin),
            ),
            WatermarkPosition::Center => ("(w-text_w)/2".to_owned(), "(h-text_h)/2".to_owned()),
        }
    }

    pub fn overlay_xy(self, margin: u32) -> (r: (String, String))
        ensures
            (r.0@, r.1@) == overlay_position(self, margin),
    {
        let m = string_of(&decimal_chars(margin as u64));
        match self {
            WatermarkPosition::TopLeft => (m.clone(), m),
            WatermarkPosition::TopRight => (prefixed_margin("main_w-overlay_w-", margin), m),
            WatermarkPosition::BottomLeft => (m, prefixed_margin("main_h-overlay_h-", margin)),
            WatermarkPosition::BottomRight => (
                prefixed_margin("main_w-overlay_w-", margin),
                prefixed_margin("main_h-overlay_h-", margin),
            ),
            WatermarkPosition::Center => (
                "(main_w-overlay_w)/2".to_owned(),
                "(main_h-overlay_h)/2".to_owned(),
            ),
        }
    }
}

impl WatermarkSource {
    /// The text, or the image path, for reports.
    pub fn label(&self) -> (r: String)
        ensures
            r@ == (match self {
                WatermarkSource::Text(t) => t@,
                WatermarkSource::Image(p) => p@,
            }),
    {
        match self {
            WatermarkSource::Text(t) => t.clone(),
            WatermarkSource::Image(p) => p.clone(),
        }
    }
}

/// The watermark from `--text` or `--image`: exactly one is needed, and text is
/// trimmed and must not be blank.
pub open spec fn source_result(text: Option<Seq<char>>, image: Option<Seq<char>>) -> Result<(bool, Seq<char>), Seq<char>> {
    match (text, image) {
        (Some(t), None) => if trim(t).len() == 0 {
            Err("text watermark cannot be empty"@)
        } else {
            Ok((true, trim(t)))
        },
        (None, Some(i)) => Ok((false, i)),
        (None, None) => Err("watermark requires exactly one of --text or --image"@),
        (Some(_), Some(_)) => Err("watermark accepts only one of --text or --image"@),
    }
}

pub fn resolve_source(text: Option<String>, image: Option<String>) -> (r: Result<WatermarkSource, String>)
    ensures
        match r {
            Ok(WatermarkSource::Text(t)) => source_result(crate::text::opt_string(text), crate::text::opt_string(image))
                == Ok::<(bool, Seq<char>), Seq<char>>((true, t@)),
            Ok(WatermarkSource::Image(p)) => source_result(crate::text::opt_string(text), crate::text::opt_string(image))
                == Ok::<(bool, Seq<char>), Seq<char>>((false, p@)),
            Err(e) => source_result(crate::text::opt_string(text), crate::text::opt_string(image))
                == Err::<(bool, Seq<char>), Seq<char>>(e@),
        },
{
    match (text, image) {
        (Some(t), None) => {
            let trimmed = trim_chars(&chars_of(t.as_str()));
            if trimmed.len() == 0 {
                Err("text watermark cannot be empty".to_owned())
            } else {
                Ok(WatermarkSource::Text(string_of(&trimmed)))
            }
        },
        (None, Some(i)) => Ok(WatermarkSource::Image(i)),
        (None, None) => Err("watermark requires exactly one of --text or --image".to_owned()),
        (Some(_), Some(_)) => Err("watermark accepts only one of --text or --image".to_owned()),
    }
}

/// `<stem>.watermarked.<extension>` beside the video (`video` and `mp4` when missing).
pub open spec fn watermarked_output_path(video: Seq<char>) -> Seq<char> {
    let stem = match path_file_stem(video) {
        Some(s) => s,
        None => "video"@,
    };
    let extension = match path_extension(video) {
        Some(e) => e,
        None => "mp4"@,
    };
    path_with_file_name(video, stem + ".watermarked."@ + extension)
}

pub fn default_output_path(video: &str) -> (r: String)
    ensures
        r@ == watermarked_output_path(video@),
{
    let stem = match file_stem_of(video) {
        Some(s) => s,
        None => "video".to_owned(),
    };
    let extension = match extension_of(video) {
        Some(e) => e,
        None => "mp4".to_owned(),
    };
    let name = concat3(stem.as_str(), ".watermarked.", extension.as_str());
    with_file_name(video, name.as_str())
}

/// SVG images are converted to PNG before overlaying.
pub open spec fn needs_conversion(path: Seq<char>) -> bool {
    match path_extension(path) {
        Some(e) => ascii_lowercase(e) == "svg"@ || ascii_lowercase(e) == "svgz"@,
        None => false,
    }
}

pub fn image_needs_conversion(path: &str) -> (r: bool)
    ensures
        r == needs_conversion(path@),
{
    match extension_of(path) {
        Some(e) => {
            let lower = string_of(&ascii_lowercase_chars(&chars_of(e.as_str())));
            str_eq(&lower, "svg") || str_eq(&lower, "svgz")
        },
        None => false,
    }
}

/// A font name reduced to lower-case ASCII letters and digits.
pub open spec fn font_key(name: Seq<char>) -> Seq<char>
    decreases name.len(),
{
    if name.len() == 0 {
        seq![]
    } else if ascii_alnum(name.last()) {
        font_key(name.drop_last()).push(ascii_to_lower(name.last()))
    } else {
        font_key(name.drop_last())
    }
}

pub fn normalize_font_name(raw: &str) -> (r: String)
    ensures
        r@ == font_key(raw@),
{
    let v = chars_of(raw);
    let mut key: Vec<char> = Vec::new();
    let mut i: usize = 0;
    while i < v.len()
        invariant
            i <= v.len(),
            key@ == font_key(v@.subrange(0, i as int)),
        decreases v.len() - i,
    {
        if is_ascii_alphanumeric(v[i]) {
            key.push(to_ascii_lowercase(v[i]));
        }
        i += 1;
        proof {
            let prefix = v@.subrange(0, i as int);
            assert(prefix.drop_last() =~= v@.subrange(0, i - 1));
        }
    }
    assert(v@.subrange(0, v.len() as int) =~= v@);
    string_of(&key)
}

/// The font files a watermark may use for a family name.
pub open spec fn watermark_font_files(key: Seq<char>) -> Seq<Seq<char>> {
    if key == "arial"@ {
        seq![
            "/System/Library/Fonts/Supplemental/Arial.ttf"@,
            "/Library/Fonts/Arial.ttf"@,
            "/Library/Fonts/Arial Unicode.ttf"@,
        ]
    } else if key == "verdana"@ {
        seq!["/System/Library/Fonts/Supplemental/Verdana.ttf"@, "/Library/Fonts/Verdana.ttf"@]
    } else if key == "helvetica"@ || key == "helveticaneue"@ {
        seq!["/System/Library/Fonts/Helvetica.ttc"@, "/System/Library/Fonts/HelveticaNeue.ttc"@]
    } else if key == "pingfang"@ || key == "pingfangsc"@ {
        seq![
            "/System/Library/AssetsV2/com_apple_MobileAsset_Font8/86ba2c91f017a3749571a82f2c6d890ac7ffb2fb.asset/AssetData/PingFang.ttc"@,
            "/System/Library/Fonts/PingFang.ttc"@,
        ]
    } else {
        seq![]
    }
}

fn owned(parts: Vec<&str>) -> (r: Vec<String>)
    ensures
        r@.map_values(|s: String| s@) == parts@.map_values(|s: &str| s@),
{
    let mut out: Vec<String> = Vec::new();
    let mut i: usize = 0;
    while i < parts.len()
        invariant
            i <= parts.len(),
            out@.map_values(|s: String| s@) == parts@.map_values(|s: &str| s@).subrange(0, i as int),
        decreases parts.len() - i,
    {
        let ghost before = out@.map_values(|s: String| s@);
        let item = parts[i].to_owned();
        out.push(item);
        assert(out@.map_values(|s: String| s@) =~= before.push(parts@[i as int]@));
        i += 1;
        assert(out@.map_values(|s: String| s@) =~= parts@.map_values(|s: &str| s@).subrange(0, i as int));
    }
    assert(parts@.map_values(|s: &str| s@).subrange(0, parts.len() as int) =~= parts@.map_values(|s: &str| s@));
    out
}

pub fn named_font_candidates(requested: &str) -> (r: Vec<String>)
    ensures
        r@.map_values(|s: String| s@) == watermark_font_files(font_key(requested@)),
{
    let key = normalize_font_name(requested);
    let r = if str_eq(&key, "arial") {
        owned(vec![
            "/System/Library/Fonts/Supplemental/Arial.ttf",
            "/Library/Fonts/Arial.ttf",
            "/Library/Fonts/Arial Unicode.ttf",
        ])
    } else if str_eq(&key, "verdana") {
        owned(vec!["/System/Library/Fonts/Supplemental/Verdana.ttf", "/Library/Fonts/Verdana.ttf"])
    } else if str_eq(&key, "helvetica") || str_eq(&key, "helveticaneue") {
        owned(vec!["/System/Library/Fonts/Helvetica.ttc", "/System/Library/Fonts/HelveticaNeue.ttc"])
    } else if str_eq(&key, "pingfang") || str_eq(&key, "pingfangsc") {
        owned(vec![
            "/System/Library/AssetsV2/com_apple_MobileAsset_Font8/86ba2c91f017a3749571a82f2c6d890ac7ffb2fb.asset/AssetData/PingFang.ttc",
            "/System/Library/Fonts/PingFang.ttc",
        ])
    } else {
        Vec::new()
    };
    assert(r@.map_values(|s: String| s@) =~= watermark_font_files(font_key(requested@)));
    r
}

/// Backslashes, single quotes and colons escaped for a drawtext value.
pub open spec fn drawtext_escaped(s: Seq<char>) -> Seq<char>
    decreases s.len(),
{
    if s.len() == 0 {
        seq![]
    } else {
        drawtext_escaped(s.drop_last()) + (if s.last() == '\\' || s.last() == '\'' || s.last()
            == ':' {
            seq!['\\', s.last()]
        } else {
            seq![s.last()]
        })
    }
}

pub fn escape_drawtext_value(value: &str) -> (r: String)
    ensures
        r@ == drawtext_escaped(value@),
{
    let v = chars_of(value);
    let mut out: Vec<char> = Vec::new();
    let mut i: usize = 0;
    while i < v.len()
        invariant
            i <= v.len(),
            out@ == drawtext_escaped(v@.subrange(0, i as int)),
        decreases v.len() - i,
    {
        let c = v[i];
        if c == '\\' || c == '\'' || c == ':' {
            out.push('\\');
        }
        out.push(c);
        i += 1;
        proof {
            let prefix = v@.subrange(0, i as int);
            assert(prefix.drop_last() =~= v@.subrange(0, i - 1));
            assert(out@ =~= drawtext_escaped(prefix));
        }
    }
    assert(v@.subrange(0, v.len() as int) =~= v@);
    string_of(&out)
}

pub fn escape_drawtext_text(value: &str) -> (r: String)
    ensures
        r@ == drawtext_escaped(value@),
{
    escape_drawtext_value(value)
}

} // verus!
