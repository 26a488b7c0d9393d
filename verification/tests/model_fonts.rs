use lilaccaps::cli::is_root_version_request;
use lilaccaps::fonts::{
    font_language, fontconfig_pattern, is_cjk_or_korean_or_japanese, looks_like_font_path,
    named_candidates,
};
use lilaccaps::model::{model_file_name, model_url};

#[test]
fn resolves_model_file_name() {
    assert_eq!(
        model_file_name("base").expect("base model should resolve"),
        "ggml-base.bin"
    );
    assert_eq!(
        model_file_name("medium").expect("medium model should resolve"),
        "ggml-medium.bin"
    );
    assert_eq!(
        model_file_name("large").unwrap_err(),
        "unsupported whisper model id: large"
    );
    assert_eq!(
        model_url("tiny.en").unwrap(),
        "https://huggingface.co/ggerganov/whisper.cpp/resolve/main/ggml-tiny.en.bin"
    );
}

#[test]
fn identifies_supported_scripts() {
    assert!(is_cjk_or_korean_or_japanese('中'));
    assert!(is_cjk_or_korean_or_japanese('あ'));
    assert!(is_cjk_or_korean_or_japanese('한'));
    assert!(!is_cjk_or_korean_or_japanese('A'));
}

#[test]
fn font_language_prefers_kana_then_hangul() {
    assert_eq!(font_language("日本語のテキスト"), "ja");
    assert_eq!(font_language("한국어"), "ko");
    assert_eq!(font_language("中文字幕"), "zh-cn");
    assert_eq!(font_language("Hello"), "en");
    assert_eq!(fontconfig_pattern(None, "en"), "sans-serif:lang=en");
}

#[test]
fn font_paths_and_family_candidates() {
    assert!(looks_like_font_path("/fonts/a"));
    assert!(looks_like_font_path("Font.TTF"));
    assert!(!looks_like_font_path("Arial"));
    assert_eq!(named_candidates("Ping Fang-SC").len(), 2);
    assert_eq!(named_candidates("Arial")[1], "/Library/Fonts/Arial.ttf");
    assert!(named_candidates("Comic Sans").is_empty());
}

#[test]
fn intercepts_only_exact_root_version_requests() {
    let args = |items: &[&str]| items.iter().map(|s| s.to_string()).collect::<Vec<_>>();
    assert!(is_root_version_request(&args(&["lilaccaps", "--version"])));
    assert!(is_root_version_request(&args(&["lilaccaps", "-V"])));
    assert!(!is_root_version_request(&args(&["lilaccaps", "status"])));
    assert!(!is_root_version_request(&args(&["lilaccaps", "--version", "status"])));
}
