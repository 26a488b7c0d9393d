use lilaccaps::watermark::{
    default_output_path, escape_drawtext_text, image_needs_conversion, named_font_candidates,
    normalize_font_name, resolve_source, WatermarkPosition, WatermarkSource,
};

#[test]
fn default_output_path_adds_watermarked_suffix() {
    let path = default_output_path("/tmp/input.mp4");
    assert_eq!(path, "/tmp/input.watermarked.mp4");
}

#[test]
fn text_source_trims_input() {
    let source = resolve_source(Some("  lilac  ".to_string()), None).expect("valid text");
    assert!(matches!(source, WatermarkSource::Text(text) if text == "lilac"));
}

#[test]
fn source_requires_exactly_one_input() {
    let err = resolve_source(None, None).unwrap_err();
    assert!(err.contains("exactly one"));

    let err = resolve_source(Some("lilac".to_string()), Some("/tmp/logo.png".into())).unwrap_err();
    assert!(err.contains("only one"));

    let err = resolve_source(Some("   ".to_string()), None).unwrap_err();
    assert_eq!(err, "text watermark cannot be empty");
}

#[test]
fn detects_svg_images_for_conversion() {
    assert!(image_needs_conversion("/tmp/logo.svg"));
    assert!(image_needs_conversion("/tmp/logo.SVGZ"));
    assert!(!image_needs_conversion("/tmp/logo.png"));
}

#[test]
fn maps_common_font_names_to_candidates() {
    assert!(!named_font_candidates("Arial").is_empty());
    assert!(!named_font_candidates("Verdana").is_empty());
    assert!(!named_font_candidates("PingFang SC").is_empty());
    assert!(named_font_candidates("Courier").is_empty());
    assert_eq!(normalize_font_name("Helvetica Neue!"), "helveticaneue");
}

#[test]
fn positions_and_escaping() {
    assert_eq!(WatermarkPosition::BottomRight.label(), "bottom-right");
    assert_eq!(
        WatermarkPosition::TopRight.overlay_xy(24),
        ("main_w-overlay_w-24".to_string(), "24".to_string())
    );
    assert_eq!(
        WatermarkPosition::BottomLeft.drawtext_xy(8),
        ("8".to_string(), "h-text_h-8".to_string())
    );
    assert_eq!(escape_drawtext_text("a:b'c\\"), "a\\:b\\'c\\\\");
    assert_eq!(WatermarkSource::Image("/x.png".to_string()).label(), "/x.png");
}
