//! GitHub repository identifiers and release metadata.
use vstd::prelude::*;

use crate::text::{
    chars_of, concat_str, has_prefix, index_of, is_ascii_alphanumeric, ascii_alnum, lemma_index_of,
    slice_chars, starts_with, strip_prefix_chars, strip_suffix_all, string_of, trim, trim_chars,
    trim_end_matches_chars,
};

verus! {

broadcast use vstd::string::group_string_axioms;

/// The repository this package is published from.
pub const PACKAGE_REPOSITORY: &'static str = "https://github.com/zhuisDEV/lilaccaps";

/// A published (non-draft, non-prerelease) release.
#[derive(Debug, Clone)]
pub struct ReleaseInfo {
    pub tag_name: String,
    pub version: String,
}

/// A character allowed in an owner or repository name.
pub open spec fn slug_char(c: char) -> bool {
    ascii_alnum(c) || c == '-' || c == '_' || c == '.'
}

/// One half of `owner/name`: non-empty, not `.` or `..`, of allowed characters only.
pub open spec fn valid_slug_part(p: Seq<char>) -> bool {
    &&& p.len() > 0
    &&& p != seq!['.']
    &&& p != seq!['.', '.']
    &&& forall|k: int| 0 <= k < p.len() ==> slug_char(#[trigger] p[k])
}

/// `t` is exactly two valid parts around one `/`.
pub open spec fn valid_slug(t: Seq<char>) -> bool {
    let slash = index_of(t, '/') as int;
    &&& slash < t.len()
    &&& valid_slug_part(t.subrange(0, slash))
    &&& valid_slug_part(t.subrange(slash + 1, t.len() as int))
    &&& forall|k: int| slash < k < t.len() ==> t[k] != '/'
}

/// `input` trimmed and without a trailing `.git`.
pub open spec fn slug_text(input: Seq<char>) -> Seq<char> {
    strip_suffix_all(trim(input), ".git"@)
}

pub open spec fn slug_result(input: Seq<char>) -> Result<Seq<char>, Seq<char>> {
    if valid_slug(slug_text(input)) {
        Ok(slug_text(input))
    } else {
        Err("invalid GitHub repo identifier: "@ + input)
    }
}

/// The hosts a remote URL may name, each followed by `owner/name`.
pub open spec fn remote_result(input: Seq<char>) -> Result<Seq<char>, Seq<char>> {
    let t = slug_text(input);
    if has_prefix(t, "git@github.com:"@) {
        slug_result(t.subrange("git@github.com:"@.len() as int, t.len() as int))
    } else if has_prefix(t, "https://github.com/"@) {
        slug_result(t.subrange("https://github.com/"@.len() as int, t.len() as int))
    } else if has_prefix(t, "http://github.com/"@) {
        slug_result(t.subrange("http://github.com/"@.len() as int, t.len() as int))
    } else if has_prefix(t, "ssh://git@github.com/"@) {
        slug_result(t.subrange("ssh://git@github.com/"@.len() as int, t.len() as int))
    } else {
        Err("unsupported GitHub remote URL: "@ + input)
    }
}

/// A repository given as `owner/name` or as a GitHub remote URL, in `owner/name` form.
pub open spec fn repo_result(input: Seq<char>) -> Result<Seq<char>, Seq<char>> {
    let t = trim(input);
    if has_prefix(t, "http://"@) || has_prefix(t, "https://"@) || has_prefix(t, "git@"@)
        || has_prefix(t, "ssh://"@) {
        remote_result(t)
    } else {
        slug_result(t)
    }
}

fn is_slug_part(p: &[char]) -> (r: bool)
    ensures
        r == valid_slug_part(p@),
{
    if p.len() == 0 {
        return false;
    }
    if p.len() == 1 && p[0] == '.' {
        assert(p@ =~= seq!['.']);
        return false;
    }
    if p.len() == 2 && p[0] == '.' && p[1] == '.' {
        assert(p@ =~= seq!['.', '.']);
        return false;
    }
    let mut k: usize = 0;
    while k < p.len()
        invariant
            k <= p.len(),
            forall|j: int| 0 <= j < k ==> slug_char(#[trigger] p@[j]),
        decreases p.len() - k,
    {
        let c = p[k];
        if !(is_ascii_alphanumeric(c) || c == '-' || c == '_' || c == '.') {
            return false;
        }
        k += 1;
    }
    assert(p@ != seq!['.'] ==> true);
    proof {
        if p@ == seq!['.'] {
            assert(p@.len() == 1);
        }
        if p@ == seq!['.', '.'] {
            assert(p@.len() == 2 && p@[0] == '.' && p@[1] == '.');
        }
    }
    true
}

fn normalize_github_slug(input: &str) -> (r: Result<String, String>)
    ensures
        match r {
            Ok(s) => slug_result(input@) == Ok::<Seq<char>, Seq<char>>(s@),
            Err(e) => slug_result(input@) == Err::<Seq<char>, Seq<char>>(e@),
        },
{
    let chars = chars_of(input);
    let trimmed = trim_chars(&chars);
    let git = chars_of(".git");
    let t = trim_end_matches_chars(&trimmed, &git);
    let mut slash: usize = 0;
    while slash < t.len() && t[slash] != '/'
        invariant
            slash <= t.len(),
            forall|k: int| 0 <= k < slash ==> t@[k] != '/',
        decreases t.len() - slash,
    {
        slash += 1;
    }
    proof {
        lemma_index_of(t@, '/');
        assert(index_of(t@, '/') == slash);
    }
    let mut valid = slash < t.len();
    if valid {
        let left = slice_chars(&t, 0, slash);
        let right = slice_chars(&t, slash + 1, t.len());
        let mut k: usize = 0;
        let mut single = true;
        while k < right.len()
            invariant
                k <= right.len(),
                single == (forall|j: int| 0 <= j < k ==> right@[j] != '/'),
            decreases right.len() - k,
        {
            if right[k] == '/' {
                single = false;
            }
            k += 1;
        }
        proof {
            assert(single == (forall|j: int| slash < j < t.len() ==> t@[j] != '/')) by {
                if single {
                    assert forall|j: int| slash < j < t.len() implies t@[j] != '/' by {
                        assert(right@[j - slash - 1] == t@[j]);
                    }
                } else {
                    let j = choose|j: int| 0 <= j < right.len() && !(right@[j] != '/');
                    assert(right@[j] == t@[j + slash + 1]);
                }
            }
        }
        valid = single && is_slug_part(&left) && is_slug_part(&right);
    }
    if valid {
        Ok(string_of(&t))
    } else {
        Err(concat_str("invalid GitHub repo identifier: ", input))
    }
}

fn strip_host(t: &[char], host: &str) -> (r: Option<Vec<char>>)
    ensures
        match r {
            Some(rest) => has_prefix(t@, host@) && rest@ == t@.subrange(
                host@.len() as int,
                t@.len() as int,
            ),
            None => !has_prefix(t@, host@),
        },
{
    let h = chars_of(host);
    strip_prefix_chars(t, &h)
}

fn normalize_github_remote_url(input: &str) -> (r: Result<String, String>)
    ensures
        match r {
            Ok(s) => remote_result(input@) == Ok::<Seq<char>, Seq<char>>(s@),
            Err(e) => remote_result(input@) == Err::<Seq<char>, Seq<char>>(e@),
        },
{
    let chars = chars_of(input);
    let trimmed = trim_chars(&chars);
    let git = chars_of(".git");
    let t = trim_end_matches_chars(&trimmed, &git);
    if let Some(rest) = strip_host(&t, "git@github.com:") {
        return normalize_github_slug(&string_of(&rest));
    }
    if let Some(rest) = strip_host(&t, "https://github.com/") {
        return normalize_github_slug(&string_of(&rest));
    }
    if let Some(rest) = strip_host(&t, "http://github.com/") {
        return normalize_github_slug(&string_of(&rest));
    }
    if let Some(rest) = strip_host(&t, "ssh://git@github.com/") {
        return normalize_github_slug(&string_of(&rest));
    }
    Err(concat_str("unsupported GitHub remote URL: ", input))
}

/// Normalises `owner/name` or a GitHub remote URL to `owner/name`.
pub fn normalize_github_repo(input: &str) -> (r: Result<String, String>)
    ensures
        match r {
            Ok(s) => repo_result(input@) == Ok::<Seq<char>, Seq<char>>(s@),
            Err(e) => repo_result(input@) == Err::<Seq<char>, Seq<char>>(e@),
        },
{
    let chars = chars_of(input);
    let t = trim_chars(&chars);
    let remote = starts_with(&t, &chars_of("http://")) || starts_with(&t, &chars_of("https://"))
        || starts_with(&t, &chars_of("git@")) || starts_with(&t, &chars_of("ssh://"));
    if remote {
        normalize_github_remote_url(&string_of(&t))
    } else {
        normalize_github_slug(&string_of(&t))
    }
}

/// The repository that update checks fall back to.
pub fn default_github_repo() -> (r: String)
    ensures
        r@ == (match repo_result(PACKAGE_REPOSITORY@) {
            Ok(s) => s,
            Err(_) => "zhuisDEV/lilaccaps"@,
        }),
{
    match normalize_github_repo(PACKAGE_REPOSITORY) {
        Ok(s) => s,
        Err(_) => "zhuisDEV/lilaccaps".to_owned(),
    }
}

/// The release described by a latest-release payload: none for drafts and
/// prereleases; the version is the tag without its leading `v`s.
pub open spec fn release_of(tag: Seq<char>, prerelease: bool, draft: bool) -> Option<(Seq<char>, Seq<char>)> {
    if prerelease || draft {
        None
    } else {
        Some((tag, strip_leading_v(tag)))
    }
}

pub open spec fn strip_leading_v(s: Seq<char>) -> Seq<char>
    decreases s.len(),
{
    if s.len() > 0 && s[0] == 'v' {
        strip_leading_v(s.drop_first())
    } else {
        s
    }
}

pub fn release_from_payload(tag_name: &str, prerelease: bool, draft: bool) -> (r: Option<ReleaseInfo>)
    ensures
        match r {
            Some(info) => release_of(tag_name@, prerelease, draft) == Some((info.tag_name@, info.version@)),
            None => release_of(tag_name@, prerelease, draft) is None,
        },
{
    if prerelease || draft {
        return None;
    }
    let chars = chars_of(tag_name);
    let mut i: usize = 0;
    assert(chars@.subrange(0, chars.len() as int) =~= chars@);
    while i < chars.len() && chars[i] == 'v'
        invariant
            i <= chars.len(),
            strip_leading_v(chars@) == strip_leading_v(chars@.subrange(i as int, chars.len() as int)),
        decreases chars.len() - i,
    {
        let ghost before = chars@.subrange(i as int, chars.len() as int);
        i += 1;
        assert(before.drop_first() =~= chars@.subrange(i as int, chars.len() as int));
    }
    proof {
        if i == 0 {
            assert(chars@.subrange(0, chars.len() as int) =~= chars@);
        }
    }
    let version = slice_chars(&chars, i, chars.len());
    Some(ReleaseInfo { tag_name: string_of(&chars), version: string_of(&version) })
}

/// The GitHub API address of the latest release of `owner/name`.
pub fn latest_release_url(repo: &str) -> (r: String)
    ensures
        r@ == "https://api.github.com/repos/"@ + repo@ + "/releases/latest"@,
{
    crate::text::concat3("https://api.github.com/repos/", repo, "/releases/latest")
}

} // verus!
