use lilaccaps::render::{
    initial_burnin_reasons, label_layer_args, line_style_for_index, multiline_line_padding,
    overlay_renderer_reasons, point_size_for_height, renderer_name, subtitle_wrap_width,
    BurninStyle, LineStyle, OutlineStyle, TextLayerSpec,
};

fn plain_style() -> BurninStyle {
    BurninStyle {
        font: None,
        colour: None,
        size: None,
        line_spacing: None,
        outline: OutlineStyle::default(),
        line_order: Vec::new(),
        line_styles: Vec::new(),
    }
}

#[test]
fn resolves_line_style_by_ordered_role() {
    let line_styles = vec![(
        "en".to_string(),
        LineStyle {
            font: Some("Arial".to_string()),
            colour: Some("#ffd54f".to_string()),
            size: Some(30),
        },
    )];
    let style = BurninStyle {
        line_order: vec!["source".to_string(), "en".to_string()],
        line_styles,
        ..plain_style()
    };

    let line_style = line_style_for_index(&style, 1);
    assert_eq!(line_style.font.as_deref(), Some("Arial"));
    assert_eq!(line_style.size, Some(30));
    let unstyled = line_style_for_index(&style, 0);
    assert!(unstyled.font.is_none() && unstyled.size.is_none());
    let beyond = line_style_for_index(&style, 5);
    assert!(beyond.colour.is_none());
}

#[test]
fn multiline_padding_stays_tight() {
    assert_eq!(multiline_line_padding(30), 1);
    assert_eq!(multiline_line_padding(42), 1);
    assert_eq!(multiline_line_padding(60), 2);
}

#[test]
fn overlay_caption_width_leaves_horizontal_margin() {
    assert_eq!(subtitle_wrap_width(1920), 1728);
    assert_eq!(subtitle_wrap_width(1280), 1152);
    assert_eq!(subtitle_wrap_width(0), 1);
}

#[test]
fn overlay_text_layers_use_bounded_caption_images() {
    let args = label_layer_args(TextLayerSpec {
        font_path: "/Library/Fonts/Arial.ttf",
        fill_colour: "white",
        stroke_colour: "black",
        stroke_width: Some(2),
        point_size: 42,
        text_source: "caption:@/tmp/caption.txt",
        wrap_width: 1152,
    });

    assert!(args.windows(2).any(|items| items == ["-size", "1152x"]));
    assert!(args.iter().any(|arg| arg == "caption:@/tmp/caption.txt"));
    assert!(!args.iter().any(|arg| arg.starts_with("label:")));
}

#[test]
fn line_spacing_forces_overlay_renderer() {
    let style = BurninStyle {
        line_spacing: Some(3),
        ..plain_style()
    };
    assert!(style.uses_overlay_renderer());
}

#[test]
fn explicit_colour_forces_overlay_renderer() {
    let style = BurninStyle {
        colour: Some("#ffd54f".to_string()),
        ..plain_style()
    };
    assert!(style.uses_overlay_renderer());
}

#[test]
fn overlay_renderer_reasons_report_active_features() {
    let style = BurninStyle {
        colour: Some("#ffd54f".to_string()),
        line_spacing: Some(1),
        line_order: vec!["source".to_string()],
        line_styles: vec![("source".to_string(), LineStyle::default())],
        ..plain_style()
    };

    let reasons = overlay_renderer_reasons(&style);
    assert_eq!(reasons, vec!["per_line_styles", "line_spacing", "colour"]);
}

#[test]
fn ass_supported_outline_stays_on_primary_renderer() {
    let style = BurninStyle {
        outline: OutlineStyle {
            enabled: true,
            colour: Some("black".to_string()),
            width: 2,
        },
        ..plain_style()
    };

    assert!(!style.uses_overlay_renderer());
    assert!(overlay_renderer_reasons(&style).is_empty());
}

#[test]
fn ass_unsupported_outline_colour_forces_overlay_renderer() {
    let style = BurninStyle {
        outline: OutlineStyle {
            enabled: true,
            colour: Some("rgba(0,0,0,0.5)".to_string()),
            width: 2,
        },
        ..plain_style()
    };

    assert!(style.uses_overlay_renderer());
    assert_eq!(overlay_renderer_reasons(&style), vec!["outline_colour"]);
}

#[test]
fn outline_labels_and_widths_follow_activity() {
    let active = OutlineStyle { enabled: true, colour: None, width: 3 };
    assert!(active.is_active());
    assert_eq!(active.active_width(), 3);
    assert_eq!(active.colour_label(), "black");
    let zero = OutlineStyle { enabled: true, colour: Some("red".to_string()), width: 0 };
    assert!(!zero.is_active());
    assert_eq!(zero.active_width(), 0);
    assert_eq!(zero.colour_label(), "none");
    let style = plain_style();
    assert_eq!(style.font_label(), "auto");
    assert_eq!(style.colour_label(), "auto");
}

#[test]
fn caption_point_size_has_a_floor() {
    assert_eq!(point_size_for_height(1080), 63);
    assert_eq!(point_size_for_height(360), 28);
}

#[test]
fn renderer_names_and_fallback_reasons() {
    assert_eq!(renderer_name(true, false), "ffmpeg-subtitles");
    assert_eq!(renderer_name(false, true), "overlay-fallback+watermark");
    let style = plain_style();
    assert_eq!(
        initial_burnin_reasons(false, &style, true),
        vec!["ffmpeg_subtitles_filter_unavailable", "watermark_drawtext_unavailable"]
    );
    assert!(initial_burnin_reasons(true, &style, false).is_empty());
}
