use lilaccaps::media::{ass_colour, escape_filter_option, subtitles_filter};

#[test]
fn escapes_subtitles_filter_path() {
    let filter = subtitles_filter("/tmp/a:b'[c].srt", None, None, None, None);
    assert!(filter.contains("\\:"));
    assert!(filter.contains("\\'"));
    assert!(filter.contains("\\["));
    assert!(filter.contains("\\]"));
}

#[test]
fn includes_force_style_when_font_or_size_is_set() {
    let filter = subtitles_filter("/tmp/input.srt", Some("PingFang SC"), Some(42), None, None);
    assert!(filter.contains("force_style"));
    assert!(filter.contains("FontName=PingFang\\\\\\ SC"));
    assert!(filter.contains("FontSize=42"));
}

#[test]
fn includes_outline_force_style_when_outline_is_set() {
    let filter = subtitles_filter("/tmp/input.srt", None, None, Some("black"), Some(2));
    assert!(filter.contains("BorderStyle=1"));
    assert!(filter.contains("Outline=2"));
    assert!(filter.contains("OutlineColour=&H00000000"));
}

#[test]
fn disabled_outline_explicitly_overrides_the_renderer_default() {
    let filter = subtitles_filter("input.srt", None, None, None, Some(0));
    assert!(filter.contains("Outline=0"));
}

#[test]
fn malformed_hex_colours_are_rejected_without_slicing_unicode() {
    for colour in ["#a€bb", "#中中", "#ffzz00", "#😀abcd"] {
        assert_eq!(ass_colour(colour), None);
    }
}

#[test]
fn converts_hex_and_rgb_colours_to_ass_bgr() {
    assert_eq!(ass_colour("#ffd54f").as_deref(), Some("&H004FD5FF"));
    assert_eq!(ass_colour("rgb(255,220,120)").as_deref(), Some("&H0078DCFF"));
    assert_eq!(ass_colour("#00000080").as_deref(), Some("&H7F000000"));
}

#[test]
fn named_colours_and_spaced_rgb_channels_convert() {
    assert_eq!(ass_colour(" Yellow ").as_deref(), Some("&H0000FFFF"));
    assert_eq!(ass_colour("RGB( 1, 2 , 3 )").as_deref(), Some("&H00030201"));
    assert_eq!(ass_colour("rgb(1,2)"), None);
    assert_eq!(ass_colour("rgb(256,0,0)"), None);
    assert_eq!(ass_colour("orange"), None);
    assert_eq!(ass_colour("   "), None);
}

#[test]
fn plain_filter_has_no_style_and_escapes_twice() {
    assert_eq!(subtitles_filter("a.srt", None, None, None, None), "subtitles=filename=a.srt");
    assert_eq!(escape_filter_option("a b"), "a\\\\\\ b");
    assert_eq!(escape_filter_option("x,y"), "x\\,y");
}

fn read_escaped(s: &str) -> String {
    let mut out = String::new();
    let mut chars = s.chars().peekable();
    while let Some(c) = chars.next() {
        match (c, chars.peek()) {
            ('\\', Some(_)) => out.push(chars.next().unwrap()),
            _ => out.push(c),
        }
    }
    out
}

#[test]
fn escaped_filter_options_read_back_as_written() {
    for value in ["/tmp/a b/c:d.srt", "it's [x],y;z\\w", "FontName=Noto Sans,Fontsize=24", ""] {
        let escaped = lilaccaps::media::escape_filter_option(value);
        assert_eq!(read_escaped(&read_escaped(&escaped)), value);
    }
}
