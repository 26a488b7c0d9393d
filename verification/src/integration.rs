//! Where the skill file lives, how a generated one is recognised, and the bootstrap
//! note written into the runtime home.
use vstd::prelude::*;

use crate::config::{expand_home_with, expanded, join_path, join_path_str};
use crate::text::{chars_of, contains_exec, contains_seq, extend_chars, opt_str, string_of};

verus! {

broadcast use vstd::string::group_string_axioms;

/// The line that marks a skill file (or its manual) as generated, so that updates may
/// refresh it and uninstall may remove it.
pub const GENERATED_SKILL_MARKER: &'static str = "<!-- generated-by-lilaccaps -->";

/// The skill path before the home directory is expanded: under `OPENCLAW_HOME` when it
/// is set, else under `CODEX_HOME`, else under `~/.codex`.
pub open spec fn skill_location(openclaw_home: Option<Seq<char>>, codex_home: Option<Seq<char>>) -> Seq<char> {
    match openclaw_home {
        Some(o) => join_path(join_path(join_path(o, "skills"@), "lilaccaps"@), "SKILL.md"@),
        None => match codex_home {
            Some(c) => join_path(c, "skills/lilaccaps/SKILL.md"@),
            None => "~/.codex/skills/lilaccaps/SKILL.md"@,
        },
    }
}

/// The default skill path, given the environment's `OPENCLAW_HOME`, `CODEX_HOME` and
/// the home directory.
pub fn default_skill_path_in(openclaw_home: Option<&str>, codex_home: Option<&str>, home: Option<&str>) -> (r:
    Result<String, String>)
    ensures
        match r {
            Ok(p) => expanded(skill_location(opt_str(openclaw_home), opt_str(codex_home)), opt_str(home))
                == Ok::<Seq<char>, Seq<char>>(p@),
            Err(e) => expanded(skill_location(opt_str(openclaw_home), opt_str(codex_home)), opt_str(home))
                == Err::<Seq<char>, Seq<char>>(e@),
        },
{
    let location = match openclaw_home {
        Some(o) => {
            let a = join_path_str(o, "skills");
            let b = join_path_str(a.as_str(), "lilaccaps");
            join_path_str(b.as_str(), "SKILL.md")
        },
        None => match codex_home {
            Some(c) => join_path_str(c, "skills/lilaccaps/SKILL.md"),
            None => string_of(&chars_of("~/.codex/skills/lilaccaps/SKILL.md")),
        },
    };
    expand_home_with(location.as_str(), home)
}

/// The skill file that exists: the configured one, else the default one.
pub fn detect_skill_path(
    configured: &str,
    configured_exists: bool,
    default: Option<String>,
    default_exists: bool,
) -> (r: Option<String>)
    ensures
        configured_exists ==> (r matches Some(p) && p@ == configured@),
        !configured_exists ==> match default {
            Some(d) => if default_exists {
                (r matches Some(p) && p@ == d@)
            } else {
                r is None
            },
            None => r is None,
        },
{
    if configured_exists {
        return Some(string_of(&chars_of(configured)));
    }
    match default {
        Some(d) => if default_exists {
            Some(d)
        } else {
            None
        },
        None => None,
    }
}

/// Whether a skill file or manual was generated (and so may be refreshed or removed).
pub fn is_generated_skill(raw: &str) -> (r: bool)
    ensures
        r == contains_seq(raw@, GENERATED_SKILL_MARKER@),
{
    contains_exec(&chars_of(raw), &chars_of(GENERATED_SKILL_MARKER))
}

/// A generated skill file: the bundled skill, then the marker line.
pub fn generated_skill_content(skill: &str) -> (r: String)
    ensures
        r@ == skill@ + "\n"@ + GENERATED_SKILL_MARKER@ + "\n"@,
{
    let mut v = chars_of(skill);
    extend_chars(&mut v, &chars_of("\n"));
    extend_chars(&mut v, &chars_of(GENERATED_SKILL_MARKER));
    extend_chars(&mut v, &chars_of("\n"));
    string_of(&v)
}

/// A generated manual: the marker line, then the bundled manual.
pub fn generated_manual_content(manual: &str) -> (r: String)
    ensures
        r@ == GENERATED_SKILL_MARKER@ + "\n"@ + manual@,
{
    let mut v = chars_of(GENERATED_SKILL_MARKER);
    extend_chars(&mut v, &chars_of("\n"));
    extend_chars(&mut v, &chars_of(manual));
    string_of(&v)
}

pub open spec fn bootstrap_tail() -> Seq<char> {
    "`\n\nUse `lilaccaps status` and `lilaccaps doctor` to inspect readiness. On macOS, `doctor --fix` repairs mapped Homebrew dependencies. On externally managed systems, use `update --skip-dependencies` when updating.\n\nCaption projects use `workflow start`, `resume`, `status`, `accept` and `render`. Generation and verification send text to authenticated Codex through the existing ChatGPT login. Check authentication with `codex login status`. Review the generated SRT and reports before acceptance, then inspect the rendered video. Text-only review is not an audio audit.\n\nUse `watermark-preset save/list/show/remove` for reusable text/image marks. Saved images and explicit font files are copied into the runtime's `watermarks/` folder; project snapshots survive removal of the library preset.\n\nSee the configured skill for the complete workflow and the repository README for settings.\n"@
}

/// The bootstrap note: where the settings, runtime and skill are, and how to proceed.
pub open spec fn bootstrap_text(config_path: Seq<char>, runtime_home: Seq<char>, skill_path: Seq<char>) -> Seq<char> {
    "# LilacCaps bootstrap\n\nConfig: `"@ + config_path + "`\n\nRuntime: `"@ + runtime_home + "`\n\nSkill: `"@
        + skill_path + bootstrap_tail()
}

/// The text of `bootstrap.md` in the runtime home.
pub fn bootstrap_markdown(config_path: &str, runtime_home: &str, skill_path: &str) -> (r: String)
    ensures
        r@ == bootstrap_text(config_path@, runtime_home@, skill_path@),
{
    let mut v = chars_of("# LilacCaps bootstrap\n\nConfig: `");
    extend_chars(&mut v, &chars_of(config_path));
    extend_chars(&mut v, &chars_of("`\n\nRuntime: `"));
    extend_chars(&mut v, &chars_of(runtime_home));
    extend_chars(&mut v, &chars_of("`\n\nSkill: `"));
    extend_chars(&mut v, &chars_of(skill_path));
    extend_chars(&mut v, &chars_of("`\n\nUse `lilaccaps status` and `lilaccaps doctor` to inspect readiness. On macOS, `doctor --fix` repairs mapped Homebrew dependencies. On externally managed systems, use `update --skip-dependencies` when updating.\n\nCaption projects use `workflow start`, `resume`, `status`, `accept` and `render`. Generation and verification send text to authenticated Codex through the existing ChatGPT login. Check authentication with `codex login status`. Review the generated SRT and reports before acceptance, then inspect the rendered video. Text-only review is not an audio audit.\n\nUse `watermark-preset save/list/show/remove` for reusable text/image marks. Saved images and explicit font files are copied into the runtime's `watermarks/` folder; project snapshots survive removal of the library preset.\n\nSee the configured skill for the complete workflow and the repository README for settings.\n"));
    string_of(&v)
}

} // verus!
