//! The `status` report as `key = value` lines.
use vstd::prelude::*;

use crate::runtime::{DependencyStatus, DoctorReport, RuntimeHealth};
use crate::text::{chars_of, extend_chars, join, join_chars, opt_string, string_of, views};

verus! {

broadcast use vstd::string::group_string_axioms;

/// What `status` reports, gathered from the installation and the PATH.
#[derive(Debug, Clone)]
pub struct StatusFacts {
    pub version: String,
    pub latest_stable: Option<String>,
    pub latest_stable_error: Option<String>,
    pub binary_path: String,
    pub installed_binary_path: String,
    pub config_path: String,
    pub runtime_home: String,
    pub skill_path: String,
    pub skill_detected: Option<String>,
    pub model_path: String,
    pub health: RuntimeHealth,
    pub uv_available: bool,
    pub codex_available: bool,
    pub transcription_engine_ready: bool,
    pub cleanup_ready: bool,
    pub doctor: DoctorReport,
}

pub open spec fn strs(v: Seq<String>) -> Seq<Seq<char>> {
    v.map_values(|s: String| s@)
}

pub open spec fn kv(key: Seq<char>, value: Seq<char>) -> Seq<char> {
    key + " = "@ + value
}

pub open spec fn bool_text(b: bool) -> Seq<char> {
    if b {
        "true"@
    } else {
        "false"@
    }
}

pub open spec fn or_text(o: Option<Seq<char>>, default: Seq<char>) -> Seq<char> {
    match o {
        Some(v) => v,
        None => default,
    }
}

/// A list joined with `", "`, or `none` when it is empty.
pub open spec fn list_text(l: Seq<Seq<char>>) -> Seq<char> {
    if l.len() == 0 {
        "none"@
    } else {
        join(l, ", "@)
    }
}

/// `ok`, `unhealthy` (found but failing) or `missing`.
pub open spec fn state_text(s: DependencyStatus) -> Seq<char> {
    if s.healthy {
        "ok"@
    } else if s.available {
        "unhealthy"@
    } else {
        "missing"@
    }
}

/// The four lines of one dependency.
pub open spec fn dependency_lines(s: DependencyStatus) -> Seq<Seq<char>> {
    let key = "dependency."@ + s.dependency.name@;
    seq![
        kv(key, state_text(s)),
        kv(key + ".path"@, or_text(opt_string(s.path), "unavailable"@)),
        kv(key + ".version"@, or_text(opt_string(s.version), "unavailable"@)),
        kv(key + ".error"@, or_text(opt_string(s.error), "none"@)),
    ]
}

pub open spec fn all_dependency_lines(statuses: Seq<DependencyStatus>) -> Seq<Seq<char>>
    decreases statuses.len(),
{
    if statuses.len() == 0 {
        seq![]
    } else {
        all_dependency_lines(statuses.drop_last()) + dependency_lines(statuses.last())
    }
}

/// Versions and paths.
pub open spec fn status_paths(f: StatusFacts) -> Seq<Seq<char>> {
    seq![
        kv("version"@, f.version@),
        kv("latest_stable"@, or_text(opt_string(f.latest_stable), "unavailable"@)),
        kv("latest_stable_error"@, or_text(opt_string(f.latest_stable_error), "none"@)),
        kv("binary_path"@, f.binary_path@),
        kv("installed_binary_path"@, f.installed_binary_path@),
        kv("config_path"@, f.config_path@),
        kv("runtime_home"@, f.runtime_home@),
        kv("skill_path"@, f.skill_path@),
        kv("skill_detected"@, or_text(opt_string(f.skill_detected), "unavailable"@)),
        kv("model_path"@, f.model_path@),
    ]
}

/// Core readiness.
pub open spec fn status_core(f: StatusFacts) -> Seq<Seq<char>> {
    seq![
        kv("config_valid"@, bool_text(f.health.config_valid)),
        kv("installed"@, bool_text(f.health.installed)),
        kv("healthy"@, bool_text(f.health.healthy)),
        kv("cargo_available"@, bool_text(f.health.cargo_available)),
        kv("ffmpeg_available"@, bool_text(f.health.ffmpeg_available)),
        kv("ffprobe_available"@, bool_text(f.health.ffprobe_available)),
        kv("cmake_available"@, bool_text(f.health.cmake_available)),
        kv("magick_available"@, bool_text(f.health.magick_available)),
    ]
}

/// Optional readiness and fixability.
pub open spec fn status_optional(f: StatusFacts) -> Seq<Seq<char>> {
    seq![
        kv("uv_available"@, bool_text(f.uv_available)),
        kv("codex_available"@, bool_text(f.codex_available)),
        kv("transcription_engine_ready"@, bool_text(f.transcription_engine_ready)),
        kv("cleanup_ready"@, bool_text(f.cleanup_ready)),
        kv("build_ready"@, bool_text(f.health.build_ready)),
        kv("fallback_renderer_ready"@, bool_text(f.health.fallback_renderer_ready)),
        kv("can_fix_with_brew"@, bool_text(f.doctor.can_fix_with_brew)),
        kv("model_ready"@, bool_text(f.health.model_ready)),
    ]
}

/// The lists.
pub open spec fn status_lists(f: StatusFacts) -> Seq<Seq<char>> {
    seq![
        kv("missing"@, list_text(strs(f.health.missing@))),
        kv("brew_packages"@, list_text(strs(f.doctor.brew_packages@))),
        kv("advisories"@, list_text(strs(f.doctor.advisories@))),
    ]
}

/// The lines before the dependencies.
pub open spec fn status_head(f: StatusFacts) -> Seq<Seq<char>> {
    status_paths(f) + status_core(f) + status_optional(f) + status_lists(f)
}

/// Every line of the report, in order.
pub open spec fn status_text(f: StatusFacts) -> Seq<Seq<char>> {
    status_head(f) + all_dependency_lines(f.doctor.statuses@)
}

pub(crate) fn push_line(out: &mut Vec<String>, key: &[char], value: &[char])
    ensures
        strs(final(out)@) == strs(old(out)@).push(kv(key@, value@)),
{
    let mut line: Vec<char> = Vec::new();
    extend_chars(&mut line, key);
    extend_chars(&mut line, &chars_of(" = "));
    extend_chars(&mut line, value);
    let ghost before = strs(out@);
    out.push(string_of(&line));
    assert(strs(out@) =~= before.push(kv(key@, value@)));
}

pub(crate) fn push_text(out: &mut Vec<String>, key: &str, value: &str)
    ensures
        strs(final(out)@) == strs(old(out)@).push(kv(key@, value@)),
{
    push_line(out, &chars_of(key), &chars_of(value));
}

pub(crate) fn push_bool(out: &mut Vec<String>, key: &str, value: bool)
    ensures
        strs(final(out)@) == strs(old(out)@).push(kv(key@, bool_text(value))),
{
    let text = if value {
        chars_of("true")
    } else {
        chars_of("false")
    };
    proof {
        reveal_strlit("true");
        reveal_strlit("false");
    }
    push_line(out, &chars_of(key), &text);
}

fn push_option(out: &mut Vec<String>, key: &[char], value: &Option<String>, default: &str)
    ensures
        strs(final(out)@) == strs(old(out)@).push(kv(key@, or_text(opt_string(*value), default@))),
{
    match value {
        Some(v) => push_line(out, key, &chars_of(v.as_str())),
        None => push_line(out, key, &chars_of(default)),
    }
}

fn push_list(out: &mut Vec<String>, key: &str, items: &Vec<String>)
    ensures
        strs(final(out)@) == strs(old(out)@).push(kv(key@, list_text(strs(items@)))),
{
    if items.len() == 0 {
        push_text(out, key, "none");
        return;
    }
    let mut parts: Vec<Vec<char>> = Vec::new();
    let mut i: usize = 0;
    while i < items.len()
        invariant
            i <= items.len(),
            views(parts@) == strs(items@).subrange(0, i as int),
        decreases items.len() - i,
    {
        let ghost before = views(parts@);
        parts.push(chars_of(items[i].as_str()));
        assert(views(parts@) =~= before.push(items@[i as int]@));
        i += 1;
        assert(views(parts@) =~= strs(items@).subrange(0, i as int));
    }
    assert(strs(items@).subrange(0, items.len() as int) =~= strs(items@));
    let joined = join_chars(&parts, &chars_of(", "));
    push_line(out, &chars_of(key), &joined);
}

/// `ok`, `unhealthy` or `missing` for one dependency.
pub fn dependency_state(status: &DependencyStatus) -> (r: String)
    ensures
        r@ == state_text(*status),
{
    if status.healthy {
        string_of(&chars_of("ok"))
    } else if status.available {
        string_of(&chars_of("unhealthy"))
    } else {
        string_of(&chars_of("missing"))
    }
}

fn push_dependency(out: &mut Vec<String>, s: &DependencyStatus)
    ensures
        strs(final(out)@) == strs(old(out)@) + dependency_lines(*s),
{
    let ghost start = strs(out@);
    let mut key = chars_of("dependency.");
    extend_chars(&mut key, &chars_of(s.dependency.name.as_str()));
    let state = dependency_state(s);
    push_line(out, &key, &chars_of(state.as_str()));
    let mut path_key = key.clone();
    extend_chars(&mut path_key, &chars_of(".path"));
    push_option(out, &path_key, &s.path, "unavailable");
    let mut version_key = key.clone();
    extend_chars(&mut version_key, &chars_of(".version"));
    push_option(out, &version_key, &s.version, "unavailable");
    let mut error_key = key.clone();
    extend_chars(&mut error_key, &chars_of(".error"));
    push_option(out, &error_key, &s.error, "none");
    assert(strs(out@) =~= start + dependency_lines(*s));
}

fn push_paths(out: &mut Vec<String>, f: &StatusFacts)
    ensures
        strs(final(out)@) == strs(old(out)@) + status_paths(*f),
{
    let ghost start = strs(out@);
    push_text(out, "version", f.version.as_str());
    push_option(out, &chars_of("latest_stable"), &f.latest_stable, "unavailable");
    push_option(out, &chars_of("latest_stable_error"), &f.latest_stable_error, "none");
    push_text(out, "binary_path", f.binary_path.as_str());
    push_text(out, "installed_binary_path", f.installed_binary_path.as_str());
    push_text(out, "config_path", f.config_path.as_str());
    push_text(out, "runtime_home", f.runtime_home.as_str());
    push_text(out, "skill_path", f.skill_path.as_str());
    push_option(out, &chars_of("skill_detected"), &f.skill_detected, "unavailable");
    push_text(out, "model_path", f.model_path.as_str());
    assert(strs(out@) =~= start + status_paths(*f));
}

fn push_core(out: &mut Vec<String>, f: &StatusFacts)
    ensures
        strs(final(out)@) == strs(old(out)@) + status_core(*f),
{
    let ghost start = strs(out@);
    let h = &f.health;
    push_bool(out, "config_valid", h.config_valid);
    push_bool(out, "installed", h.installed);
    push_bool(out, "healthy", h.healthy);
    push_bool(out, "cargo_available", h.cargo_available);
    push_bool(out, "ffmpeg_available", h.ffmpeg_available);
    push_bool(out, "ffprobe_available", h.ffprobe_available);
    push_bool(out, "cmake_available", h.cmake_available);
    push_bool(out, "magick_available", h.magick_available);
    assert(strs(out@) =~= start + status_core(*f));
}

fn push_optional(out: &mut Vec<String>, f: &StatusFacts)
    ensures
        strs(final(out)@) == strs(old(out)@) + status_optional(*f),
{
    let ghost start = strs(out@);
    push_bool(out, "uv_available", f.uv_available);
    push_bool(out, "codex_available", f.codex_available);
    push_bool(out, "transcription_engine_ready", f.transcription_engine_ready);
    push_bool(out, "cleanup_ready", f.cleanup_ready);
    push_bool(out, "build_ready", f.health.build_ready);
    push_bool(out, "fallback_renderer_ready", f.health.fallback_renderer_ready);
    push_bool(out, "can_fix_with_brew", f.doctor.can_fix_with_brew);
    push_bool(out, "model_ready", f.health.model_ready);
    assert(strs(out@) =~= start + status_optional(*f));
}

fn push_lists(out: &mut Vec<String>, f: &StatusFacts)
    ensures
        strs(final(out)@) == strs(old(out)@) + status_lists(*f),
{
    let ghost start = strs(out@);
    push_list(out, "missing", &f.health.missing);
    push_list(out, "brew_packages", &f.doctor.brew_packages);
    push_list(out, "advisories", &f.doctor.advisories);
    assert(strs(out@) =~= start + status_lists(*f));
}

/// The `status` report, one `key = value` line each: versions, paths, readiness, the
/// lists (`none` when empty), then four lines per probed dependency.
pub fn status_lines(facts: &StatusFacts) -> (r: Vec<String>)
    ensures
        strs(r@) == status_text(*facts),
{
    let f = facts;
    let mut out: Vec<String> = Vec::new();
    push_paths(&mut out, f);
    push_core(&mut out, f);
    push_optional(&mut out, f);
    push_lists(&mut out, f);
    assert(strs(out@) =~= status_head(*f));
    let statuses = &f.doctor.statuses;
    let mut i: usize = 0;
    assert(statuses@.subrange(0, 0) =~= seq![]);
    while i < statuses.len()
        invariant
            i <= statuses.len(),
            statuses == &f.doctor.statuses,
            strs(out@) == status_head(*f) + all_dependency_lines(statuses@.subrange(0, i as int)),
        decreases statuses.len() - i,
    {
        push_dependency(&mut out, &statuses[i]);
        proof {
            let prefix = statuses@.subrange(0, i as int + 1);
            assert(prefix.drop_last() =~= statuses@.subrange(0, i as int));
            assert(prefix.last() == statuses@[i as int]);
        }
        i += 1;
    }
    assert(statuses@.subrange(0, statuses.len() as int) =~= statuses@);
    out
}

} // verus!
