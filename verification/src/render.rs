//! Caption styling and the choice between ffmpeg's `subtitles` filter and
//! pre-rendered caption overlays, with the sizes and arguments the overlays use.
use vstd::prelude::*;

use crate::media::{ass_colour, ass_colour_of};
use crate::text::{chars_of, decimal, decimal_chars, extend_chars, str_eq, string_of};

verus! {

broadcast use vstd::string::group_string_axioms;

/// Per-line overrides for one caption role.
#[derive(Debug, Clone)]
pub struct LineStyle {
    pub font: Option<String>,
    pub colour: Option<String>,
    pub size: Option<u32>,
}

impl Default for LineStyle {
    fn default() -> (r: Self)
        ensures
            r.font is None,
            r.colour is None,
            r.size is None,
    {
        LineStyle { font: None, colour: None, size: None }
    }
}

/// The caption outline.
#[derive(Debug, Clone)]
pub struct OutlineStyle {
    pub enabled: bool,
    pub colour: Option<String>,
    pub width: u32,
}

impl Default for OutlineStyle {
    fn default() -> (r: Self)
        ensures
            !r.enabled,
            r.colour is None,
            r.width == 0,
    {
        OutlineStyle { enabled: false, colour: None, width: 0 }
    }
}

/// How captions are burned in. `line_styles` maps a role named in `line_order`
/// to its overrides; a role appears in it at most once.
#[derive(Debug, Clone)]
pub struct BurninStyle {
    pub font: Option<String>,
    pub colour: Option<String>,
    pub size: Option<u32>,
    pub line_spacing: Option<u32>,
    pub outline: OutlineStyle,
    pub line_order: Vec<String>,
    pub line_styles: Vec<(String, LineStyle)>,
}

/// Which renderer drew the captions, and why the primary one was not used.
#[derive(Debug, Clone)]
pub struct BurninRendererReport {
    pub renderer: String,
    pub reasons: Vec<String>,
}

pub open spec fn outline_active(o: OutlineStyle) -> bool {
    o.enabled && o.width > 0
}

/// An active outline whose colour ASS cannot express needs the overlay renderer.
pub open spec fn outline_needs_overlay(o: OutlineStyle) -> bool {
    outline_active(o) && match o.colour {
        Some(c) => ass_colour_of(c@) is None,
        None => false,
    }
}

pub open spec fn line_overrides(s: BurninStyle) -> bool {
    s.line_order@.len() > 0 && s.line_styles@.len() > 0
}

pub open spec fn needs_overlay(s: BurninStyle) -> bool {
    line_overrides(s) || s.line_spacing is Some || s.colour is Some || outline_needs_overlay(
        s.outline,
    )
}

/// The reasons, in order, that a style cannot use the `subtitles` filter.
pub open spec fn overlay_reasons(s: BurninStyle) -> Seq<Seq<char>> {
    (if line_overrides(s) {
        seq!["per_line_styles"@]
    } else {
        seq![]
    }) + (if s.line_spacing is Some {
        seq!["line_spacing"@]
    } else {
        seq![]
    }) + (if s.colour is Some {
        seq!["colour"@]
    } else {
        seq![]
    }) + (if outline_needs_overlay(s.outline) {
        seq!["outline_colour"@]
    } else {
        seq![]
    })
}

pub open spec fn label_or(o: Option<String>, fallback: Seq<char>) -> Seq<char> {
    match o {
        Some(s) => s@,
        None => fallback,
    }
}

impl OutlineStyle {
    pub fn is_active(&self) -> (r: bool)
        ensures
            r == outline_active(*self),
    {
        self.enabled && self.width > 0
    }

    /// The width drawn: zero unless the outline is active.
    pub fn active_width(&self) -> (r: u32)
        ensures
            r == (if outline_active(*self) {
                self.width
            } else {
                0
            }),
    {
        if self.is_active() {
            self.width
        } else {
            0
        }
    }

    /// The outline colour for reports: `none` when inactive, `black` by default.
    pub fn colour_label(&self) -> (r: String)
        ensures
            r@ == (if outline_active(*self) {
                label_or(self.colour, "black"@)
            } else {
                "none"@
            }),
    {
        if self.is_active() {
            match &self.colour {
                Some(c) => c.clone(),
                None => "black".to_owned(),
            }
        } else {
            "none".to_owned()
        }
    }

    pub fn requires_overlay_renderer(&self) -> (r: bool)
        ensures
            r == outline_needs_overlay(*self),
    {
        if !self.is_active() {
            return false;
        }
        match &self.colour {
            Some(c) => ass_colour(c.as_str()).is_none(),
            None => false,
        }
    }
}

impl BurninStyle {
    pub fn font_label(&self) -> (r: String)
        ensures
            r@ == label_or(self.font, "auto"@),
    {
        match &self.font {
            Some(f) => f.clone(),
            None => "auto".to_owned(),
        }
    }

    pub fn colour_label(&self) -> (r: String)
        ensures
            r@ == label_or(self.colour, "auto"@),
    {
        match &self.colour {
            Some(c) => c.clone(),
            None => "auto".to_owned(),
        }
    }

    pub fn has_line_overrides(&self) -> (r: bool)
        ensures
            r == line_overrides(*self),
    {
        self.line_order.len() > 0 && self.line_styles.len() > 0
    }

    /// Whether any feature of the style is beyond the `subtitles` filter.
    pub fn uses_overlay_renderer(&self) -> (r: bool)
        ensures
            r == needs_overlay(*self),
    {
        self.has_line_overrides() || self.line_spacing.is_some() || self.colour.is_some()
            || self.outline.requires_overlay_renderer()
    }
}

/// Why the overlay renderer is needed, in a fixed order.
pub fn overlay_renderer_reasons(style: &BurninStyle) -> (r: Vec<String>)
    ensures
        r@.map_values(|s: String| s@) == overlay_reasons(*style),
{
    let mut reasons: Vec<String> = Vec::new();
    if style.has_line_overrides() {
        reasons.push("per_line_styles".to_owned());
    }
    if style.line_spacing.is_some() {
        reasons.push("line_spacing".to_owned());
    }
    if style.colour.is_some() {
        reasons.push("colour".to_owned());
    }
    if style.outline.requires_overlay_renderer() {
        reasons.push("outline_colour".to_owned());
    }
    assert(reasons@.map_values(|s: String| s@) =~= overlay_reasons(*style));
    reasons
}

/// The overrides for the line at `index`: those of the role `line_order` gives it.
pub open spec fn role_at(s: BurninStyle, index: int) -> Seq<char> {
    if 0 <= index < s.line_order@.len() {
        s.line_order@[index]@
    } else {
        seq![]
    }
}

/// The position of the entry for `role` in `styles`, if any.
pub open spec fn style_position(styles: Seq<(String, LineStyle)>, role: Seq<char>) -> Option<int>
    decreases styles.len(),
{
    if styles.len() == 0 {
        None
    } else if styles[0].0@ == role {
        Some(0)
    } else {
        match style_position(styles.drop_first(), role) {
            Some(k) => Some(k + 1),
            None => None,
        }
    }
}

/// The style of line `index`: its role's overrides, or none.
pub fn line_style_for_index(style: &BurninStyle, index: usize) -> (r: LineStyle)
    ensures
        match style_position(style.line_styles@, role_at(*style, index as int)) {
            Some(k) => r == style.line_styles@[k].1,
            None => r.font is None && r.colour is None && r.size is None,
        },
{
    let role: String = if index < style.line_order.len() {
        style.line_order[index].clone()
    } else {
        String::new()
    };
    let mut k: usize = 0;
    assert(style.line_styles@.subrange(0, style.line_styles.len() as int) =~= style.line_styles@);
    while k < style.line_styles.len()
        invariant
            k <= style.line_styles.len(),
            role@ == role_at(*style, index as int),
            style_position(style.line_styles@, role@) == match style_position(
                style.line_styles@.subrange(k as int, style.line_styles.len() as int),
                role@,
            ) {
                Some(j) => Some(j + k),
                None => None,
            },
        decreases style.line_styles.len() - k,
    {
        let ghost rest = style.line_styles@.subrange(k as int, style.line_styles.len() as int);
        if str_eq(style.line_styles[k].0.as_str(), role.as_str()) {
            assert(rest[0] == style.line_styles@[k as int]);
            let found = &style.line_styles[k].1;
            return LineStyle { font: found.font.clone(), colour: found.colour.clone(), size: found.size };
        }
        assert(rest.drop_first() =~= style.line_styles@.subrange(
            k + 1,
            style.line_styles.len() as int,
        ));
        k += 1;
    }
    LineStyle::default()
}

/// The caption font size for a video of the given height.
pub fn point_size_for_height(height: u32) -> (r: u32)
    ensures
        r == (if height / 17 < 28 {
            28
        } else {
            height / 17
        }),
{
    let candidate = height / 17;
    if candidate < 28 {
        28
    } else {
        candidate
    }
}

/// The width scaled by nine (saturating), a tenth of it, and at least one pixel.
pub open spec fn wrap_width(width: int) -> int {
    let scaled = if width * 9 > u32::MAX {
        u32::MAX as int
    } else {
        width * 9
    };
    if scaled / 10 < 1 {
        1
    } else {
        scaled / 10
    }
}

/// Nine tenths of the width (at least one pixel): the caption wrap width.
pub fn subtitle_wrap_width(width: u32) -> (r: u32)
    ensures
        r == wrap_width(width as int),
{
    let scaled: u32 = if width > u32::MAX / 9 {
        u32::MAX
    } else {
        width * 9
    };
    let wrapped = scaled / 10;
    if wrapped < 1 {
        1
    } else {
        wrapped
    }
}

/// Padding between caption lines: a twenty-fourth of the font size, between 1 and 2.
pub fn multiline_line_padding(point_size: u32) -> (r: u32)
    ensures
        r == (if point_size / 24 < 1 {
            1
        } else if point_size / 24 > 2 {
            2
        } else {
            point_size / 24
        }),
{
    let p = point_size / 24;
    if p < 1 {
        1
    } else if p > 2 {
        2
    } else {
        p
    }
}

/// One ImageMagick text layer.
#[derive(Debug, Clone, Copy)]
pub struct TextLayerSpec<'a> {
    pub font_path: &'a str,
    pub fill_colour: &'a str,
    pub stroke_colour: &'a str,
    pub stroke_width: Option<u32>,
    pub point_size: u32,
    pub text_source: &'a str,
    pub wrap_width: u32,
}

pub open spec fn label_args(spec: TextLayerSpec) -> Seq<Seq<char>> {
    seq![
        "-background"@,
        "none"@,
        "-font"@,
        spec.font_path@,
        "-fill"@,
        spec.fill_colour@,
        "-stroke"@,
        spec.stroke_colour@,
    ] + (match spec.stroke_width {
        Some(w) => seq!["-strokewidth"@, decimal(w as nat)],
        None => seq![],
    }) + seq![
        "-pointsize"@,
        decimal(spec.point_size as nat),
        "-size"@,
        decimal(spec.wrap_width as nat) + "x"@,
        spec.text_source@,
    ]
}

/// The ImageMagick arguments that draw one text layer wrapped at `wrap_width`.
pub fn label_layer_args(spec: TextLayerSpec) -> (r: Vec<String>)
    ensures
        r@.map_values(|s: String| s@) == label_args(spec),
{
    let mut args: Vec<String> = Vec::new();
    args.push("-background".to_owned());
    args.push("none".to_owned());
    args.push("-font".to_owned());
    args.push(spec.font_path.to_owned());
    args.push("-fill".to_owned());
    args.push(spec.fill_colour.to_owned());
    args.push("-stroke".to_owned());
    args.push(spec.stroke_colour.to_owned());
    if let Some(w) = spec.stroke_width {
        args.push("-strokewidth".to_owned());
        args.push(string_of(&decimal_chars(w as u64)));
    }
    args.push("-pointsize".to_owned());
    args.push(string_of(&decimal_chars(spec.point_size as u64)));
    args.push("-size".to_owned());
    let mut size = decimal_chars(spec.wrap_width as u64);
    extend_chars(&mut size, &chars_of("x"));
    args.push(string_of(&size));
    args.push(spec.text_source.to_owned());
    assert(args@.map_values(|s: String| s@) =~= label_args(spec));
    args
}

/// The renderer name reported for a burn-in.
pub open spec fn renderer_label(native: bool, watermark: bool) -> Seq<char> {
    if native && !watermark {
        "ffmpeg-subtitles"@
    } else if !native && !watermark {
        "overlay-fallback"@
    } else if native {
        "ffmpeg-subtitles+watermark"@
    } else {
        "overlay-fallback+watermark"@
    }
}

pub fn renderer_name(native: bool, watermark: bool) -> (r: String)
    ensures
        r@ == renderer_label(native, watermark),
{
    match (native, watermark) {
        (true, false) => "ffmpeg-subtitles".to_owned(),
        (false, false) => "overlay-fallback".to_owned(),
        (true, true) => "ffmpeg-subtitles+watermark".to_owned(),
        (false, true) => "overlay-fallback+watermark".to_owned(),
    }
}

/// The reasons reported before compositing: the overlay reasons (or, when the style
/// would have allowed the filter but it is missing, that), and the text watermark
/// drawn as an image when drawtext is unavailable.
pub open spec fn burnin_reasons(native: bool, style: BurninStyle, text_as_image: bool) -> Seq<Seq<char>> {
    let base = if native {
        seq![]
    } else if overlay_reasons(style).len() == 0 {
        seq!["ffmpeg_subtitles_filter_unavailable"@]
    } else {
        overlay_reasons(style)
    };
    if text_as_image {
        base.push("watermark_drawtext_unavailable"@)
    } else {
        base
    }
}

pub fn initial_burnin_reasons(native: bool, style: &BurninStyle, text_as_image: bool) -> (r: Vec<
    String,
>)
    ensures
        r@.map_values(|s: String| s@) == burnin_reasons(native, *style, text_as_image),
{
    let mut reasons = if native {
        Vec::new()
    } else {
        overlay_renderer_reasons(style)
    };
    if !native && reasons.len() == 0 {
        reasons.push("ffmpeg_subtitles_filter_unavailable".to_owned());
    }
    let ghost before = reasons@.map_values(|s: String| s@);
    if text_as_image {
        reasons.push("watermark_drawtext_unavailable".to_owned());
        assert(reasons@.map_values(|s: String| s@) =~= before.push("watermark_drawtext_unavailable"@));
    }
    proof {
        if !native {
            assert(overlay_reasons(*style).len() == 0 ==> before =~= seq!["ffmpeg_subtitles_filter_unavailable"@]);
        } else {
            assert(before =~= Seq::<Seq<char>>::empty());
        }
    }
    reasons
}

} // verus!
