//! The burn-in command's decisions: the caption style that settings and command-line
//! options give, the default output name, and the report of a run.
use vstd::prelude::*;

use crate::config::{default_burnin_outline_width, BurninLineStyleConfig, BurninOutlineConfig};
use crate::fonts::{extension_of, path_extension};
use crate::paths::{file_stem_of, path_file_stem, path_with_file_name, with_file_name};
use crate::render::{BurninStyle, LineStyle, OutlineStyle};
use crate::text::{
    ascii_lowercase, ascii_lowercase_chars, chars_of, concat3, join, join_chars, opt_string,
    str_eq, string_of, trim, trim_chars, views,
};

verus! {

broadcast use vstd::string::group_string_axioms;

/// What a burn-in run produced.
#[derive(Debug, Clone)]
pub struct BurninOutput {
    pub video: String,
    pub subs: String,
    pub output: String,
    pub font: String,
    pub colour: String,
    pub size: u32,
    pub line_spacing: u32,
    pub outline_enabled: bool,
    pub outline_colour: String,
    pub outline_width: u32,
    pub renderer: String,
    pub renderer_reason: String,
    pub status: String,
}

/// A burn-in request: the inputs and the command-line overrides.
#[derive(Debug, Clone)]
pub struct BurninRequest {
    pub video: String,
    pub config_path: Option<String>,
    pub subs: String,
    pub output: Option<String>,
    pub font: Option<String>,
    pub colour: Option<String>,
    pub size: Option<u32>,
    pub outline_enabled: Option<bool>,
    pub outline_colour: Option<String>,
    pub outline_width: Option<u32>,
}

/// A configured font or colour: trimmed, with blank and `auto` meaning none.
pub open spec fn normalized_setting(raw: Seq<char>) -> Option<Seq<char>> {
    let t = trim(raw);
    if t.len() == 0 || ascii_lowercase(t) == "auto"@ {
        None
    } else {
        Some(t)
    }
}

fn normalize_setting(raw: &str) -> (r: Option<String>)
    ensures
        opt_string(r) == normalized_setting(raw@),
{
    let t = trim_chars(&chars_of(raw));
    let lower = string_of(&ascii_lowercase_chars(&t));
    if t.len() == 0 || str_eq(&lower, "auto") {
        None
    } else {
        Some(string_of(&t))
    }
}

pub fn normalize_font(raw: &str) -> (r: Option<String>)
    ensures
        opt_string(r) == normalized_setting(raw@),
{
    normalize_setting(raw)
}

pub fn normalize_colour(raw: &str) -> (r: Option<String>)
    ensures
        opt_string(r) == normalized_setting(raw@),
{
    normalize_setting(raw)
}

/// The outline for one run: command-line options override the settings; a colour
/// or positive width on the command line turns the outline on, and an outline turned
/// on with no width gets the default width.
pub open spec fn resolved_outline(
    config: BurninOutlineConfig,
    cli_enabled: Option<bool>,
    cli_colour: Option<Seq<char>>,
    cli_width: Option<u32>,
) -> (bool, Option<Seq<char>>, int) {
    let width0 = match cli_width {
        Some(w) => w as int,
        None => config.width as int,
    };
    let cli_sets = cli_colour is Some || (match cli_width {
        Some(w) => w > 0,
        None => false,
    });
    let enabled = match cli_enabled {
        Some(e) => e,
        None => if cli_sets {
            true
        } else {
            config.enabled
        },
    };
    let width = if enabled && width0 == 0 && (cli_enabled == Some(true) || cli_sets) {
        2
    } else {
        width0
    };
    let colour = match cli_colour {
        Some(c) => Some(c),
        None => match normalized_setting(config.colour@) {
            Some(c) => Some(c),
            None => if enabled {
                Some("black"@)
            } else {
                None
            },
        },
    };
    (enabled, colour, width)
}

pub fn resolve_outline(
    config: &BurninOutlineConfig,
    cli_enabled: Option<bool>,
    cli_colour: Option<String>,
    cli_width: Option<u32>,
) -> (r: OutlineStyle)
    ensures
        (r.enabled, opt_string(r.colour), r.width as int) == resolved_outline(
            *config,
            cli_enabled,
            opt_string(cli_colour),
            cli_width,
        ),
{
    let mut width = match cli_width {
        Some(w) => w,
        None => config.width,
    };
    let cli_sets = cli_colour.is_some() || match cli_width {
        Some(w) => w > 0,
        None => false,
    };
    let enabled = match cli_enabled {
        Some(e) => e,
        None => if cli_sets {
            true
        } else {
            config.enabled
        },
    };
    let explicitly_on = match cli_enabled {
        Some(e) => e,
        None => false,
    };
    if enabled && width == 0 && (explicitly_on || cli_sets) {
        width = default_burnin_outline_width();
    }
    let colour = match cli_colour {
        Some(c) => Some(c),
        None => match normalize_colour(config.colour.as_str()) {
            Some(c) => Some(c),
            None => if enabled {
                Some("black".to_owned())
            } else {
                None
            },
        },
    };
    OutlineStyle { enabled, colour, width }
}

pub open spec fn line_style_model(s: LineStyle) -> (Option<Seq<char>>, Option<Seq<char>>, Option<u32>) {
    (opt_string(s.font), opt_string(s.colour), s.size)
}

pub open spec fn normalized_line_style(c: BurninLineStyleConfig) -> (Option<Seq<char>>, Option<Seq<char>>, Option<u32>) {
    (
        match c.font {
            Some(f) => normalized_setting(f@),
            None => None,
        },
        match c.colour {
            Some(x) => normalized_setting(x@),
            None => None,
        },
        c.size,
    )
}

/// Settings and command-line options combined into the style of one run. Without
/// advanced styling the configured colour, line spacing and per-line styles are
/// ignored; command-line values still apply.
pub fn resolve_style(
    config_line_order: &[String],
    config_advanced_styling: bool,
    config_font: &str,
    config_colour: &str,
    config_size: u32,
    config_line_spacing: u32,
    config_outline: &BurninOutlineConfig,
    config_styles: &Vec<(String, BurninLineStyleConfig)>,
    cli_font: Option<String>,
    cli_colour: Option<String>,
    cli_size: Option<u32>,
    cli_outline_enabled: Option<bool>,
    cli_outline_colour: Option<String>,
    cli_outline_width: Option<u32>,
) -> (r: BurninStyle)
    ensures
        opt_string(r.font) == (match cli_font {
            Some(f) => Some(f@),
            None => normalized_setting(config_font@),
        }),
        opt_string(r.colour) == (match cli_colour {
            Some(c) => Some(c@),
            None => if config_advanced_styling {
                normalized_setting(config_colour@)
            } else {
                None
            },
        }),
        r.size == (match cli_size {
            Some(s) => if s == 0 {
                None
            } else {
                Some(s)
            },
            None => if config_size == 0 {
                None
            } else {
                Some(config_size)
            },
        }),
        r.line_spacing == (if config_advanced_styling && config_line_spacing != 0 {
            Some(config_line_spacing)
        } else {
            None
        }),
        (r.outline.enabled, opt_string(r.outline.colour), r.outline.width as int)
            == resolved_outline(
            *config_outline,
            cli_outline_enabled,
            opt_string(cli_outline_colour),
            cli_outline_width,
        ),
        config_advanced_styling ==> r.line_order@ == config_line_order@,
        !config_advanced_styling ==> r.line_order@.len() == 0,
        config_advanced_styling ==> r.line_styles@.len() == config_styles@.len() && forall|k: int|
            0 <= k < config_styles@.len() ==> (#[trigger] r.line_styles@[k]).0@
                == config_styles@[k].0@ && line_style_model(r.line_styles@[k].1)
                == normalized_line_style(config_styles@[k].1),
        !config_advanced_styling ==> r.line_styles@.len() == 0,
{
    let font = match cli_font {
        Some(f) => Some(f),
        None => normalize_font(config_font),
    };
    let colour = match cli_colour {
        Some(c) => Some(c),
        None => if config_advanced_styling {
            normalize_colour(config_colour)
        } else {
            None
        },
    };
    let chosen_size = match cli_size {
        Some(s) => s,
        None => config_size,
    };
    let size = if chosen_size == 0 {
        None
    } else {
        Some(chosen_size)
    };
    let line_spacing = if config_advanced_styling && config_line_spacing != 0 {
        Some(config_line_spacing)
    } else {
        None
    };
    let mut line_styles: Vec<(String, LineStyle)> = Vec::new();
    if config_advanced_styling {
        let mut k: usize = 0;
        while k < config_styles.len()
            invariant
                k <= config_styles.len(),
                line_styles@.len() == k,
                forall|j: int|
                    0 <= j < k ==> (#[trigger] line_styles@[j]).0@ == config_styles@[j].0@
                        && line_style_model(line_styles@[j].1) == normalized_line_style(
                        config_styles@[j].1,
                    ),
            decreases config_styles.len() - k,
        {
            let entry = &config_styles[k];
            let style = LineStyle {
                font: match &entry.1.font {
                    Some(f) => normalize_font(f.as_str()),
                    None => None,
                },
                colour: match &entry.1.colour {
                    Some(c) => normalize_colour(c.as_str()),
                    None => None,
                },
                size: entry.1.size,
            };
            line_styles.push((entry.0.clone(), style));
            k += 1;
        }
    }
    let mut line_order: Vec<String> = Vec::new();
    if config_advanced_styling {
        let mut k: usize = 0;
        while k < config_line_order.len()
            invariant
                k <= config_line_order.len(),
                line_order@ == config_line_order@.subrange(0, k as int),
            decreases config_line_order.len() - k,
        {
            line_order.push(config_line_order[k].clone());
            k += 1;
            assert(line_order@ =~= config_line_order@.subrange(0, k as int));
        }
        assert(config_line_order@.subrange(0, config_line_order.len() as int) =~= config_line_order@);
    }
    BurninStyle {
        font,
        colour,
        size,
        line_spacing,
        outline: resolve_outline(config_outline, cli_outline_enabled, cli_outline_colour, cli_outline_width),
        line_order,
        line_styles,
    }
}

/// `<stem>.burned.<extension>` beside the video (`video` and `mp4` when missing).
pub open spec fn burned_output_path(video: Seq<char>) -> Seq<char> {
    let stem = match path_file_stem(video) {
        Some(s) => s,
        None => "video"@,
    };
    let extension = match path_extension(video) {
        Some(e) => e,
        None => "mp4"@,
    };
    path_with_file_name(video, stem + ".burned."@ + extension)
}

pub fn default_output_path(video: &str) -> (r: String)
    ensures
        r@ == burned_output_path(video@),
{
    let stem = match file_stem_of(video) {
        Some(s) => s,
        None => "video".to_owned(),
    };
    let extension = match extension_of(video) {
        Some(e) => e,
        None => "mp4".to_owned(),
    };
    let name = concat3(stem.as_str(), ".burned.", extension.as_str());
    with_file_name(video, name.as_str())
}

/// The reasons for a renderer choice as reported: `none`, or the reasons joined by commas.
pub fn renderer_reason(reasons: &Vec<String>) -> (r: String)
    ensures
        reasons@.len() == 0 ==> r@ == "none"@,
        reasons@.len() > 0 ==> r@ == join(reasons@.map_values(|s: String| s@), seq![',']),
{
    if reasons.len() == 0 {
        return "none".to_owned();
    }
    let mut parts: Vec<Vec<char>> = Vec::new();
    let mut i: usize = 0;
    while i < reasons.len()
        invariant
            i <= reasons.len(),
            views(parts@) == reasons@.map_values(|s: String| s@).subrange(0, i as int),
        decreases reasons.len() - i,
    {
        let ghost before = views(parts@);
        parts.push(chars_of(reasons[i].as_str()));
        assert(views(parts@) =~= before.push(reasons@[i as int]@));
        i += 1;
    }
    assert(reasons@.map_values(|s: String| s@).subrange(0, reasons.len() as int) =~= reasons@.map_values(
        |s: String| s@,
    ));
    let comma = vec![','];
    assert(comma@ =~= seq![',']);
    string_of(&join_chars(&parts, &comma))
}

} // verus!
