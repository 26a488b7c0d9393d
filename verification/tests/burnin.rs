use lilaccaps::burnin::{default_output_path, renderer_reason, resolve_outline, resolve_style};
use lilaccaps::config::{BurninLineStyleConfig, BurninOutlineConfig};

fn source_style() -> Vec<(String, BurninLineStyleConfig)> {
    vec![(
        "source".to_string(),
        BurninLineStyleConfig {
            font: Some("auto".to_string()),
            colour: Some("#ffd54f".to_string()),
            size: Some(30),
        },
    )]
}

#[test]
fn disabling_advanced_styling_clears_config_advanced_fields() {
    let style = resolve_style(
        &["source".to_string(), "en".to_string()],
        false,
        "auto",
        "#ffd54f",
        0,
        1,
        &BurninOutlineConfig::default(),
        &source_style(),
        None,
        None,
        None,
        None,
        None,
        None,
    );

    assert!(style.colour.is_none());
    assert!(style.line_spacing.is_none());
    assert!(style.outline.is_active());
    assert!(style.line_order.is_empty());
    assert!(style.line_styles.is_empty());
}

#[test]
fn cli_colour_overrides_disabled_advanced_styling() {
    let style = resolve_style(
        &["source".to_string(), "en".to_string()],
        false,
        "auto",
        "auto",
        0,
        1,
        &BurninOutlineConfig::default(),
        &source_style(),
        None,
        Some("#00ff00".to_string()),
        None,
        None,
        None,
        None,
    );

    assert_eq!(style.colour.as_deref(), Some("#00ff00"));
    assert!(style.line_spacing.is_none());
    assert!(style.outline.is_active());
    assert!(style.line_order.is_empty());
    assert!(style.line_styles.is_empty());
}

#[test]
fn cli_outline_options_override_config_for_one_run() {
    let style = resolve_style(
        &[],
        true,
        "auto",
        "auto",
        0,
        0,
        &BurninOutlineConfig {
            enabled: false,
            colour: "black".to_string(),
            width: 2,
        },
        &Vec::new(),
        None,
        None,
        None,
        None,
        Some("#111111".to_string()),
        Some(4),
    );

    assert!(style.outline.is_active());
    assert_eq!(style.outline.colour.as_deref(), Some("#111111"));
    assert_eq!(style.outline.width, 4);
}

#[test]
fn cli_no_outline_disables_default_outline() {
    let style = resolve_style(
        &[],
        true,
        "auto",
        "auto",
        0,
        0,
        &BurninOutlineConfig::default(),
        &Vec::new(),
        None,
        None,
        None,
        Some(false),
        None,
        None,
    );

    assert!(!style.outline.is_active());
}

#[test]
fn cli_outline_re_enables_zero_width_config_with_default_width() {
    let style = resolve_style(
        &[],
        true,
        "auto",
        "auto",
        0,
        0,
        &BurninOutlineConfig {
            enabled: false,
            colour: "black".to_string(),
            width: 0,
        },
        &Vec::new(),
        None,
        None,
        None,
        Some(true),
        None,
        None,
    );

    assert!(style.outline.is_active());
    assert_eq!(style.outline.width, 2);
}

#[test]
fn advanced_styling_keeps_normalised_line_styles() {
    let style = resolve_style(
        &["source".to_string()],
        true,
        " Arial ",
        " #ffffff ",
        36,
        4,
        &BurninOutlineConfig::default(),
        &source_style(),
        None,
        None,
        Some(0),
        None,
        None,
        None,
    );
    assert_eq!(style.font.as_deref(), Some("Arial"));
    assert_eq!(style.colour.as_deref(), Some("#ffffff"));
    assert_eq!(style.size, None);
    assert_eq!(style.line_spacing, Some(4));
    assert_eq!(style.line_styles.len(), 1);
    assert_eq!(style.line_styles[0].1.font, None);
    assert_eq!(style.line_styles[0].1.colour.as_deref(), Some("#ffd54f"));
}

#[test]
fn outline_colour_defaults_to_black_only_when_enabled() {
    let config = BurninOutlineConfig { enabled: false, colour: "auto".to_string(), width: 2 };
    assert_eq!(resolve_outline(&config, None, None, None).colour, None);
    let config = BurninOutlineConfig { enabled: true, colour: "AUTO".to_string(), width: 2 };
    assert_eq!(resolve_outline(&config, None, None, None).colour.as_deref(), Some("black"));
}

#[test]
fn burned_output_sits_beside_the_video() {
    assert_eq!(default_output_path("/v/clip.mov"), "/v/clip.burned.mov");
    assert_eq!(default_output_path("clip"), "clip.burned.mp4");
    assert_eq!(renderer_reason(&Vec::new()), "none");
    assert_eq!(
        renderer_reason(&vec!["colour".to_string(), "line_spacing".to_string()]),
        "colour,line_spacing"
    );
}
