use lilaccaps::integration::{
    bootstrap_markdown, default_skill_path_in, detect_skill_path, generated_manual_content, generated_skill_content,
    is_generated_skill, GENERATED_SKILL_MARKER,
};
use lilaccaps::watermark_presets::{
    asset_filename, font_asset_extension, image_asset_extension, is_valid_colour, normalise_text_mark,
    validate_name, validate_style_values,
};

#[test]
fn preset_names_are_short_lowercase_identifiers() {
    assert!(validate_name("brand-mark_2").is_ok());
    assert!(validate_name("2x").is_ok());
    for bad in ["", "-lead", "_lead", "Upper", "has space", "dot.name", "ü", &"a".repeat(65)] {
        assert_eq!(
            validate_name(bad).unwrap_err(),
            "watermark name must be 1-64 lowercase ASCII letters, digits, hyphens or underscores, starting with a letter or digit"
        );
    }
    assert!(validate_name(&"a".repeat(64)).is_ok());
}

#[test]
fn colours_are_hex_or_ffmpeg_names() {
    assert!(is_valid_colour("#ffd54f"));
    assert!(is_valid_colour("#FFD54F80"));
    assert!(is_valid_colour("0x000000"));
    assert!(!is_valid_colour("#ffd54"));
    assert!(!is_valid_colour("#gggggg"));
    assert!(is_valid_colour("white"));
    assert!(is_valid_colour("DarkSlateGray"));
    assert!(is_valid_colour("darkslategray"));
    assert!(is_valid_colour("YellowGreen"));
    assert!(!is_valid_colour("not-a-colour"));
    assert!(!is_valid_colour(""));
}

#[test]
fn text_marks_are_trimmed_and_bounded() {
    assert_eq!(normalise_text_mark("  LILAC  ").unwrap(), "LILAC");
    let message = "text watermark must be non-empty, contain no NUL, and be at most 16384 bytes";
    assert_eq!(normalise_text_mark("   ").unwrap_err(), message);
    assert_eq!(normalise_text_mark("a\0b").unwrap_err(), message);
    assert!(normalise_text_mark(&"x".repeat(16384)).is_ok());
    assert_eq!(normalise_text_mark(&"x".repeat(16385)).unwrap_err(), message);
    assert!(normalise_text_mark(&"字".repeat(5461)).is_ok());
    assert_eq!(normalise_text_mark(&"字".repeat(5462)).unwrap_err(), message);
}

#[test]
fn asset_paths_stay_inside_assets() {
    assert_eq!(asset_filename("assets/image.png").unwrap(), "image.png");
    assert_eq!(asset_filename("image.png").unwrap_err(), "watermark asset must be inside assets/");
    for bad in ["assets/", "assets/a/b.png", "assets/..png", "assets/a\\b.png"] {
        assert_eq!(asset_filename(bad).unwrap_err(), format!("invalid watermark asset path: {bad}"));
    }
}

#[test]
fn skill_path_prefers_openclaw_then_codex_home() {
    assert_eq!(
        default_skill_path_in(Some("/oc"), Some("/cx"), Some("/home/u")).unwrap(),
        "/oc/skills/lilaccaps/SKILL.md"
    );
    assert_eq!(default_skill_path_in(None, Some("/cx"), Some("/home/u")).unwrap(), "/cx/skills/lilaccaps/SKILL.md");
    assert_eq!(
        default_skill_path_in(None, None, Some("/home/u")).unwrap(),
        "/home/u/.codex/skills/lilaccaps/SKILL.md"
    );
    assert_eq!(default_skill_path_in(None, None, None).unwrap_err(), "failed to detect home directory");
    assert_eq!(
        default_skill_path_in(Some("~/oc"), None, Some("/home/u")).unwrap(),
        "/home/u/oc/skills/lilaccaps/SKILL.md"
    );
}

#[test]
fn detected_skill_is_the_configured_one_then_the_default() {
    assert_eq!(detect_skill_path("/a/SKILL.md", true, Some("/b".into()), true).as_deref(), Some("/a/SKILL.md"));
    assert_eq!(detect_skill_path("/a/SKILL.md", false, Some("/b".into()), true).as_deref(), Some("/b"));
    assert_eq!(detect_skill_path("/a/SKILL.md", false, Some("/b".into()), false), None);
    assert_eq!(detect_skill_path("/a/SKILL.md", false, None, true), None);
}

#[test]
fn generated_skill_files_carry_the_marker() {
    let skill = generated_skill_content("# Skill");
    assert_eq!(skill, format!("# Skill\n{GENERATED_SKILL_MARKER}\n"));
    assert!(is_generated_skill(&skill));
    assert!(!is_generated_skill("# Custom skill"));
    let manual = generated_manual_content("# Manual");
    assert!(manual.starts_with(GENERATED_SKILL_MARKER));
    assert!(is_generated_skill(&manual));
}

#[test]
fn bootstrap_note_names_the_paths() {
    let text = bootstrap_markdown("/c/lilaccaps.toml", "/r", "/s/SKILL.md");
    assert!(text.starts_with("# LilacCaps bootstrap\n\nConfig: `/c/lilaccaps.toml`\n\nRuntime: `/r`\n\nSkill: `/s/SKILL.md`\n\n"));
    assert!(text.contains("Text-only review is not an audio audit."));
    assert!(text.ends_with("repository README for settings.\n"));
}

#[test]
fn font_assets_are_truetype_or_opentype() {
    for ok in ["ttf", "ttc", "otf", "otc"] {
        assert_eq!(font_asset_extension(ok), Ok(ok.to_string()));
    }
    assert_eq!(
        font_asset_extension("woff"),
        Err("watermark font asset must be a TTF, TTC, OTF or OTC file".to_string())
    );
}

#[test]
fn image_assets_have_known_extensions() {
    assert_eq!(image_asset_extension("svgz"), Ok("svgz".to_string()));
    assert_eq!(image_asset_extension("jpeg"), Ok("jpeg".to_string()));
    assert_eq!(image_asset_extension("heic"), Err("unsupported watermark image extension: heic".to_string()));
}

#[test]
fn style_values_are_bounded_and_fonts_are_printable() {
    assert_eq!(validate_style_values(24, 24, 2, "white", "#000000", Some("Inter")), Ok(()));
    assert_eq!(validate_style_values(16384, 16384, 1024, " white ", "black", None), Ok(()));
    assert_eq!(
        validate_style_values(16385, 0, 0, "white", "black", None),
        Err("watermark size and margin must be at most 16384; outline width at most 1024".to_string())
    );
    assert_eq!(
        validate_style_values(0, 0, 1025, "white", "black", None),
        Err("watermark size and margin must be at most 16384; outline width at most 1024".to_string())
    );
    assert_eq!(
        validate_style_values(0, 0, 0, "notacolour", "black", None),
        Err("watermark colour must be a named FFmpeg colour or #RRGGBB/#RRGGBBAA".to_string())
    );
    assert_eq!(
        validate_style_values(0, 0, 0, "white", "#12345", None),
        Err("watermark outline colour must be a named FFmpeg colour or #RRGGBB/#RRGGBBAA".to_string())
    );
    assert_eq!(
        validate_style_values(0, 0, 0, "white", "black", Some("   ")),
        Err("watermark font must be a non-empty font family or font file path".to_string())
    );
    assert_eq!(
        validate_style_values(0, 0, 0, "white", "black", Some("Inter\u{7}")),
        Err("watermark font must be a non-empty font family or font file path".to_string())
    );
}
