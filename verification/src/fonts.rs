//! Font choice for captions: the scripts that need a CJK font, names that are
//! really paths, and the files known for common family names.
use vstd::prelude::*;

use crate::text::{
    ascii_alnum, ascii_lowercase, ascii_to_lower, chars_of, concat3, has_suffix, str_eq,
    string_of, to_ascii_lowercase,
};

verus! {

broadcast use vstd::string::group_string_axioms;

/// Han, kana (with phonetic extensions), Hangul and half-width katakana.
pub open spec fn cjk_korean_japanese(c: char) -> bool {
    let n = c as u32;
    (0x3400 <= n <= 0x4dbf) || (0x4e00 <= n <= 0x9fff) || (0x3040 <= n <= 0x309f) || (0x30a0
        <= n <= 0x30ff) || (0x31f0 <= n <= 0x31ff) || (0xac00 <= n <= 0xd7af) || (0xf900 <= n
        <= 0xfaff) || (0xff66 <= n <= 0xff9d)
}

pub fn is_cjk_or_korean_or_japanese(ch: char) -> (r: bool)
    ensures
        r == cjk_korean_japanese(ch),
{
    let n = ch as u32;
    (0x3400 <= n && n <= 0x4dbf) || (0x4e00 <= n && n <= 0x9fff) || (0x3040 <= n && n <= 0x309f)
        || (0x30a0 <= n && n <= 0x30ff) || (0x31f0 <= n && n <= 0x31ff) || (0xac00 <= n && n
        <= 0xd7af) || (0xf900 <= n && n <= 0xfaff) || (0xff66 <= n && n <= 0xff9d)
}

pub open spec fn kana(c: char) -> bool {
    let n = c as u32;
    (0x3040 <= n <= 0x30ff) || (0x31f0 <= n <= 0x31ff)
}

pub open spec fn hangul(c: char) -> bool {
    let n = c as u32;
    0xac00 <= n <= 0xd7af
}

/// The fontconfig language for a sample of caption text.
pub open spec fn font_language_of(s: Seq<char>) -> Seq<char> {
    if exists|k: int| 0 <= k < s.len() && kana(#[trigger] s[k]) {
        "ja"@
    } else if exists|k: int| 0 <= k < s.len() && hangul(#[trigger] s[k]) {
        "ko"@
    } else if exists|k: int| 0 <= k < s.len() && cjk_korean_japanese(#[trigger] s[k]) {
        "zh-cn"@
    } else {
        "en"@
    }
}

pub fn font_language(sample_text: &str) -> (r: String)
    ensures
        r@ == font_language_of(sample_text@),
{
    let s = chars_of(sample_text);
    let mut has_kana = false;
    let mut has_hangul = false;
    let mut has_cjk = false;
    let mut i: usize = 0;
    while i < s.len()
        invariant
            i <= s.len(),
            has_kana == (exists|k: int| 0 <= k < i && kana(#[trigger] s@[k])),
            has_hangul == (exists|k: int| 0 <= k < i && hangul(#[trigger] s@[k])),
            has_cjk == (exists|k: int| 0 <= k < i && cjk_korean_japanese(#[trigger] s@[k])),
        decreases s.len() - i,
    {
        let c = s[i];
        let n = c as u32;
        if (0x3040 <= n && n <= 0x30ff) || (0x31f0 <= n && n <= 0x31ff) {
            has_kana = true;
        }
        if 0xac00 <= n && n <= 0xd7af {
            has_hangul = true;
        }
        if is_cjk_or_korean_or_japanese(c) {
            has_cjk = true;
        }
        i += 1;
    }
    if has_kana {
        "ja".to_owned()
    } else if has_hangul {
        "ko".to_owned()
    } else if has_cjk {
        "zh-cn".to_owned()
    } else {
        "en".to_owned()
    }
}

/// What `Path::extension` gives for a path.
pub uninterp spec fn path_extension(path: Seq<char>) -> Option<Seq<char>>;

/// `Path::extension`: the file name's extension, if it has one.
#[verifier::external_body]
pub(crate) fn extension_of(path: &str) -> (r: Option<String>)
    ensures
        match r {
            Some(e) => path_extension(path@) == Some(e@),
            None => path_extension(path@) is None,
        },
{
    std::path::Path::new(path).extension().map(|e| e.to_string_lossy().into_owned())
}

pub open spec fn font_extension(e: Seq<char>) -> bool {
    let lower = ascii_lowercase(e);
    lower == "ttf"@ || lower == "otf"@ || lower == "ttc"@ || lower == "otc"@
}

/// A value that names a font file rather than a family: it has a path separator
/// or a font file extension.
pub open spec fn font_path_like(v: Seq<char>) -> bool {
    v.contains('/') || v.contains('\\') || match path_extension(v) {
        Some(e) => font_extension(e),
        None => false,
    }
}

pub fn looks_like_font_path(value: &str) -> (r: bool)
    ensures
        r == font_path_like(value@),
{
    let v = chars_of(value);
    let mut separator = false;
    let mut i: usize = 0;
    while i < v.len()
        invariant
            i <= v.len(),
            separator == (exists|k: int| 0 <= k < i && (v@[k] == '/' || v@[k] == '\\')),
        decreases v.len() - i,
    {
        if v[i] == '/' || v[i] == '\\' {
            separator = true;
        }
        i += 1;
    }
    proof {
        if separator {
            let k = choose|k: int| 0 <= k < v.len() && (v@[k] == '/' || v@[k] == '\\');
            if v@[k] == '/' {
                assert(value@.contains('/'));
            } else {
                assert(value@.contains('\\'));
            }
        } else {
            assert(!value@.contains('/') && !value@.contains('\\')) by {
                if value@.contains('/') {
                    let k = choose|k: int| 0 <= k < value@.len() && value@[k] == '/';
                    assert(v@[k] == '/');
                }
                if value@.contains('\\') {
                    let k = choose|k: int| 0 <= k < value@.len() && value@[k] == '\\';
                    assert(v@[k] == '\\');
                }
            }
        }
    }
    if separator {
        return true;
    }
    match extension_of(value) {
        Some(e) => {
            let lower = string_of(&crate::text::ascii_lowercase_chars(&chars_of(e.as_str())));
            str_eq(&lower, "ttf") || str_eq(&lower, "otf") || str_eq(&lower, "ttc") || str_eq(
                &lower,
                "otc",
            )
        },
        None => false,
    }
}

/// A family name reduced to lower-case ASCII letters and digits.
pub open spec fn family_key(name: Seq<char>) -> Seq<char>
    decreases name.len(),
{
    if name.len() == 0 {
        seq![]
    } else if ascii_alnum(name.last()) {
        family_key(name.drop_last()).push(ascii_to_lower(name.last()))
    } else {
        family_key(name.drop_last())
    }
}

/// The font files known for a family, by key.
pub open spec fn known_family_files(key: Seq<char>) -> Seq<Seq<char>> {
    if key == "arial"@ {
        seq![
            "/System/Library/Fonts/Supplemental/Arial.ttf"@,
            "/Library/Fonts/Arial.ttf"@,
            "C:\\Windows\\Fonts\\arial.ttf"@,
        ]
    } else if key == "verdana"@ {
        seq![
            "/System/Library/Fonts/Supplemental/Verdana.ttf"@,
            "/Library/Fonts/Verdana.ttf"@,
            "C:\\Windows\\Fonts\\verdana.ttf"@,
        ]
    } else if key == "pingfang"@ || key == "pingfangsc"@ {
        seq![
            "/System/Library/Fonts/PingFang.ttc"@,
            "/System/Library/AssetsV2/com_apple_MobileAsset_Font8/86ba2c91f017a3749571a82f2c6d890ac7ffb2fb.asset/AssetData/PingFang.ttc"@,
        ]
    } else if key == "hiraginosans"@ || key == "hiraginosansgb"@ {
        seq![
            "/System/Library/Fonts/Hiragino Sans GB.ttc"@,
            "/System/Library/Fonts/ヒラギノ角ゴシック W3.ttc"@,
        ]
    } else if key == "helvetica"@ || key == "helveticaneue"@ {
        seq!["/System/Library/Fonts/Helvetica.ttc"@, "/System/Library/Fonts/HelveticaNeue.ttc"@]
    } else {
        seq![]
    }
}

fn owned(parts: Vec<&str>) -> (r: Vec<String>)
    ensures
        r@.map_values(|s: String| s@) == parts@.map_values(|s: &str| s@),
{
    let mut out: Vec<String> = Vec::new();
    let mut i: usize = 0;
    while i < parts.len()
        invariant
            i <= parts.len(),
            out@.map_values(|s: String| s@) == parts@.map_values(|s: &str| s@).subrange(0, i as int),
        decreases parts.len() - i,
    {
        let ghost before = out@.map_values(|s: String| s@);
        let item = parts[i].to_owned();
        assert(item@ == parts@[i as int]@);
        out.push(item);
        assert(out@.map_values(|s: String| s@) =~= before.push(parts@[i as int]@));
        i += 1;
        assert(out@.map_values(|s: String| s@) =~= parts@.map_values(|s: &str| s@).subrange(0, i as int));
    }
    assert(parts@.map_values(|s: &str| s@).subrange(0, parts.len() as int) =~= parts@.map_values(|s: &str| s@));
    out
}

/// The known font files for a family name, ignoring case, spaces and punctuation.
pub fn named_candidates(name: &str) -> (r: Vec<String>)
    ensures
        r@.map_values(|s: String| s@) == known_family_files(family_key(name@)),
{
    let v = chars_of(name);
    let mut key: Vec<char> = Vec::new();
    let mut i: usize = 0;
    while i < v.len()
        invariant
            i <= v.len(),
            key@ == family_key(v@.subrange(0, i as int)),
        decreases v.len() - i,
    {
        if crate::text::is_ascii_alphanumeric(v[i]) {
            key.push(to_ascii_lowercase(v[i]));
        }
        i += 1;
        proof {
            let prefix = v@.subrange(0, i as int);
            assert(prefix.drop_last() =~= v@.subrange(0, i - 1));
        }
    }
    assert(v@.subrange(0, v.len() as int) =~= v@);
    let k = string_of(&key);
    let r = if str_eq(&k, "arial") {
        owned(vec![
            "/System/Library/Fonts/Supplemental/Arial.ttf",
            "/Library/Fonts/Arial.ttf",
            "C:\\Windows\\Fonts\\arial.ttf",
        ])
    } else if str_eq(&k, "verdana") {
        owned(vec![
            "/System/Library/Fonts/Supplemental/Verdana.ttf",
            "/Library/Fonts/Verdana.ttf",
            "C:\\Windows\\Fonts\\verdana.ttf",
        ])
    } else if str_eq(&k, "pingfang") || str_eq(&k, "pingfangsc") {
        owned(vec![
            "/System/Library/Fonts/PingFang.ttc",
            "/System/Library/AssetsV2/com_apple_MobileAsset_Font8/86ba2c91f017a3749571a82f2c6d890ac7ffb2fb.asset/AssetData/PingFang.ttc",
        ])
    } else if str_eq(&k, "hiraginosans") || str_eq(&k, "hiraginosansgb") {
        owned(vec![
            "/System/Library/Fonts/Hiragino Sans GB.ttc",
            "/System/Library/Fonts/ヒラギノ角ゴシック W3.ttc",
        ])
    } else if str_eq(&k, "helvetica") || str_eq(&k, "helveticaneue") {
        owned(vec!["/System/Library/Fonts/Helvetica.ttc", "/System/Library/Fonts/HelveticaNeue.ttc"])
    } else {
        Vec::new()
    };
    proof {
        assert(r@.map_values(|s: String| s@) =~= known_family_files(family_key(name@)));
    }
    r
}

/// The fontconfig pattern for a family (sans-serif by default) and language.
pub fn fontconfig_pattern(requested: Option<&str>, language: &str) -> (r: String)
    ensures
        r@ == (match requested {
            Some(f) => f@,
            None => "sans-serif"@,
        }) + ":lang="@ + language@,
{
    let family = match requested {
        Some(f) => f,
        None => "sans-serif",
    };
    concat3(family, ":lang=", language)
}

} // verus!
