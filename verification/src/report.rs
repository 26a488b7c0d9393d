//! What the transcription, translation and burn-in commands print: one
//! `key = value` line per field, in a fixed order.
use vstd::prelude::*;

use crate::burnin::BurninOutput;
use crate::runtime::{DependencyStatus, DependencyUpdateReport, DoctorReport, RuntimeHealth};
use crate::text::opt_string;
use crate::workflow::WorkflowStatus;
use crate::status::{bool_text, kv, push_bool, push_line, push_text, strs};
use crate::text::{chars_of, decimal, decimal_chars, extend_chars, join, join_chars, views};
use crate::transcribe::TranscribeOutput;
use crate::translate::TranslateOutput;

verus! {

broadcast use vstd::string::group_string_axioms;

fn push_number(out: &mut Vec<String>, key: &str, value: u64)
    ensures
        strs(final(out)@) == strs(old(out)@).push(kv(key@, decimal(value as nat))),
{
    push_line(out, &chars_of(key), &decimal_chars(value));
}

/// The lines printed after a transcription.
pub open spec fn transcribe_text(o: TranscribeOutput) -> Seq<Seq<char>> {
    seq![
        kv("command"@, "transcribe"@),
        kv("input"@, o.input@),
        kv("output"@, o.output@),
        kv("model_path"@, o.model_path@),
        kv("engine"@, o.engine@),
        kv("model"@, o.model@),
        kv("language"@, o.language@),
        kv("decoding_strategy"@, o.decoding_strategy@),
        kv("fallback_language_used"@, bool_text(o.fallback_language_used)),
        kv("fallback_decoding_used"@, bool_text(o.fallback_decoding_used)),
        kv("cue_count"@, decimal(o.cue_count as nat)),
        kv("qa_warning_count"@, decimal(o.qa_warning_count as nat)),
        kv("cue_timing"@, o.cue_timing@),
        kv("segmentation_strategy"@, o.segmentation_strategy@),
        kv("window_count"@, decimal(o.window_count as nat)),
        kv("cleanup"@, o.cleanup@),
        kv("status"@, o.status@),
    ]
}

pub fn transcribe_report(o: &TranscribeOutput) -> (r: Vec<String>)
    ensures
        strs(r@) == transcribe_text(*o),
{
    let mut out: Vec<String> = Vec::new();
    push_text(&mut out, "command", "transcribe");
    push_text(&mut out, "input", o.input.as_str());
    push_text(&mut out, "output", o.output.as_str());
    push_text(&mut out, "model_path", o.model_path.as_str());
    push_text(&mut out, "engine", o.engine.as_str());
    push_text(&mut out, "model", o.model.as_str());
    push_text(&mut out, "language", o.language.as_str());
    push_text(&mut out, "decoding_strategy", o.decoding_strategy.as_str());
    push_bool(&mut out, "fallback_language_used", o.fallback_language_used);
    push_bool(&mut out, "fallback_decoding_used", o.fallback_decoding_used);
    push_number(&mut out, "cue_count", o.cue_count as u64);
    push_number(&mut out, "qa_warning_count", o.qa_warning_count as u64);
    push_text(&mut out, "cue_timing", o.cue_timing.as_str());
    push_text(&mut out, "segmentation_strategy", o.segmentation_strategy.as_str());
    push_number(&mut out, "window_count", o.window_count as u64);
    push_text(&mut out, "cleanup", o.cleanup.as_str());
    push_text(&mut out, "status", o.status.as_str());
    assert(strs(out@) =~= transcribe_text(*o));
    out
}

/// The lines printed after a translation; the targets are joined with commas.
pub open spec fn translate_text(o: TranslateOutput) -> Seq<Seq<char>> {
    seq![
        kv("command"@, "translate"@),
        kv("input"@, o.input@),
        kv("output"@, o.output@),
        kv("targets"@, join(strs(o.targets@), ","@)),
        kv("append"@, bool_text(o.append)),
        kv("model"@, o.model@),
        kv("status"@, o.status@),
    ]
}

pub fn translate_report(o: &TranslateOutput) -> (r: Vec<String>)
    ensures
        strs(r@) == translate_text(*o),
{
    let mut out: Vec<String> = Vec::new();
    push_text(&mut out, "command", "translate");
    push_text(&mut out, "input", o.input.as_str());
    push_text(&mut out, "output", o.output.as_str());
    let mut parts: Vec<Vec<char>> = Vec::new();
    let mut i: usize = 0;
    while i < o.targets.len()
        invariant
            i <= o.targets.len(),
            views(parts@) == strs(o.targets@).subrange(0, i as int),
        decreases o.targets.len() - i,
    {
        let ghost before = views(parts@);
        parts.push(chars_of(o.targets[i].as_str()));
        assert(views(parts@) =~= before.push(o.targets@[i as int]@));
        i += 1;
        assert(views(parts@) =~= strs(o.targets@).subrange(0, i as int));
    }
    assert(strs(o.targets@).subrange(0, o.targets.len() as int) =~= strs(o.targets@));
    push_line(&mut out, &chars_of("targets"), &join_chars(&parts, &chars_of(",")));
    push_bool(&mut out, "append", o.append);
    push_text(&mut out, "model", o.model.as_str());
    push_text(&mut out, "status", o.status.as_str());
    assert(strs(out@) =~= translate_text(*o));
    out
}

/// The lines printed after a burn-in.
pub open spec fn burnin_text(o: BurninOutput) -> Seq<Seq<char>> {
    seq![
        kv("command"@, "burnin"@),
        kv("video"@, o.video@),
        kv("subs"@, o.subs@),
        kv("output"@, o.output@),
        kv("font"@, o.font@),
        kv("colour"@, o.colour@),
        kv("size"@, decimal(o.size as nat)),
        kv("line_spacing"@, decimal(o.line_spacing as nat)),
        kv("outline_enabled"@, bool_text(o.outline_enabled)),
        kv("outline_colour"@, o.outline_colour@),
        kv("outline_width"@, decimal(o.outline_width as nat)),
        kv("renderer"@, o.renderer@),
        kv("renderer_reason"@, o.renderer_reason@),
        kv("status"@, o.status@),
    ]
}

pub fn burnin_report(o: &BurninOutput) -> (r: Vec<String>)
    ensures
        strs(r@) == burnin_text(*o),
{
    let mut out: Vec<String> = Vec::new();
    push_text(&mut out, "command", "burnin");
    push_text(&mut out, "video", o.video.as_str());
    push_text(&mut out, "subs", o.subs.as_str());
    push_text(&mut out, "output", o.output.as_str());
    push_text(&mut out, "font", o.font.as_str());
    push_text(&mut out, "colour", o.colour.as_str());
    push_number(&mut out, "size", o.size as u64);
    push_number(&mut out, "line_spacing", o.line_spacing as u64);
    push_bool(&mut out, "outline_enabled", o.outline_enabled);
    push_text(&mut out, "outline_colour", o.outline_colour.as_str());
    push_number(&mut out, "outline_width", o.outline_width as u64);
    push_text(&mut out, "renderer", o.renderer.as_str());
    push_text(&mut out, "renderer_reason", o.renderer_reason.as_str());
    push_text(&mut out, "status", o.status.as_str());
    assert(strs(out@) =~= burnin_text(*o));
    out
}

/// A list joined with `sep`, or `none` when it is empty.
pub open spec fn listed(l: Seq<Seq<char>>, sep: Seq<char>) -> Seq<char> {
    if l.len() == 0 {
        "none"@
    } else {
        join(l, sep)
    }
}

fn push_listed(out: &mut Vec<String>, key: &str, items: &Vec<String>, sep: &str)
    ensures
        strs(final(out)@) == strs(old(out)@).push(kv(key@, listed(strs(items@), sep@))),
{
    if items.len() == 0 {
        push_text(out, key, "none");
        return;
    }
    let mut parts: Vec<Vec<char>> = Vec::new();
    let mut i: usize = 0;
    while i < items.len()
        invariant
            i <= items.len(),
            views(parts@) == strs(items@).subrange(0, i as int),
        decreases items.len() - i,
    {
        let ghost before = views(parts@);
        parts.push(chars_of(items[i].as_str()));
        assert(views(parts@) =~= before.push(items@[i as int]@));
        i += 1;
        assert(views(parts@) =~= strs(items@).subrange(0, i as int));
    }
    assert(strs(items@).subrange(0, items.len() as int) =~= strs(items@));
    push_line(out, &chars_of(key), &join_chars(&parts, &chars_of(sep)));
}

/// `dependency.<name> = ok` or `missing` for each probed command.
pub open spec fn availability_lines(statuses: Seq<DependencyStatus>) -> Seq<Seq<char>>
    decreases statuses.len(),
{
    if statuses.len() == 0 {
        seq![]
    } else {
        availability_lines(statuses.drop_last()).push(
            kv(
                "dependency."@ + statuses.last().dependency.name@,
                if statuses.last().available {
                    "ok"@
                } else {
                    "missing"@
                },
            ),
        )
    }
}

/// The lines printed by `doctor`.
pub open spec fn doctor_text(fix: bool, fixed: Seq<Seq<char>>, report: DoctorReport, health: RuntimeHealth) -> Seq<
    Seq<char>,
> {
    seq![
        kv("command"@, "doctor"@),
        kv("fix_requested"@, bool_text(fix)),
        kv("fixed_packages"@, listed(fixed, ", "@)),
        kv("missing_commands"@, listed(strs(report.missing_commands@), ", "@)),
        kv("brew_packages"@, listed(strs(report.brew_packages@), ", "@)),
        kv("can_fix_with_brew"@, bool_text(report.can_fix_with_brew)),
        kv("healthy"@, bool_text(health.healthy)),
        kv("build_ready"@, bool_text(health.build_ready)),
        kv("fallback_renderer_ready"@, bool_text(health.fallback_renderer_ready)),
        kv("advisories"@, listed(strs(report.advisories@), " | "@)),
    ] + availability_lines(report.statuses@)
}

pub fn doctor_lines(fix: bool, fixed: &Vec<String>, report: &DoctorReport, health: &RuntimeHealth) -> (r: Vec<
    String,
>)
    ensures
        strs(r@) == doctor_text(fix, strs(fixed@), *report, *health),
{
    let mut out: Vec<String> = Vec::new();
    push_text(&mut out, "command", "doctor");
    push_bool(&mut out, "fix_requested", fix);
    push_listed(&mut out, "fixed_packages", fixed, ", ");
    push_listed(&mut out, "missing_commands", &report.missing_commands, ", ");
    push_listed(&mut out, "brew_packages", &report.brew_packages, ", ");
    push_bool(&mut out, "can_fix_with_brew", report.can_fix_with_brew);
    push_bool(&mut out, "healthy", health.healthy);
    push_bool(&mut out, "build_ready", health.build_ready);
    push_bool(&mut out, "fallback_renderer_ready", health.fallback_renderer_ready);
    push_listed(&mut out, "advisories", &report.advisories, " | ");
    let ghost head = strs(out@);
    let mut i: usize = 0;
    while i < report.statuses.len()
        invariant
            i <= report.statuses.len(),
            strs(out@) == head + availability_lines(report.statuses@.subrange(0, i as int)),
        decreases report.statuses.len() - i,
    {
        let s = &report.statuses[i];
        let mut key = chars_of("dependency.");
        extend_chars(&mut key, &chars_of(s.dependency.name.as_str()));
        let state = if s.available {
            chars_of("ok")
        } else {
            chars_of("missing")
        };
        push_line(&mut out, &key, &state);
        assert(report.statuses@.subrange(0, i + 1).drop_last() =~= report.statuses@.subrange(0, i as int));
        i += 1;
    }
    assert(report.statuses@.subrange(0, report.statuses.len() as int) =~= report.statuses@);
    assert(strs(out@) =~= doctor_text(fix, strs(fixed@), *report, *health));
    out
}

/// The lines printed about a caption project; the caption files and the last output
/// appear only when there are any.
pub open spec fn workflow_text(s: WorkflowStatus) -> Seq<Seq<char>> {
    let head = seq![
        kv("command"@, "workflow"@),
        kv("project"@, s.project@),
        kv("state"@, s.state@),
    ];
    let source = match s.source_subtitles {
        Some(p) => seq![kv("source_subtitles"@, p@)],
        None => seq![],
    };
    let selected = match s.selected_subtitles {
        Some(p) => seq![kv("selected_subtitles"@, p@)],
        None => seq![],
    };
    let review = seq![kv("review"@, s.review_file@), kv("review_issues"@, decimal(s.issues@.len()))];
    let last = match s.last_output {
        Some(p) => seq![kv("last_output"@, p@)],
        None => seq![],
    };
    head + source + selected + review + last + seq![kv("next_action"@, s.next_action@)]
}

pub fn workflow_lines(s: &WorkflowStatus) -> (r: Vec<String>)
    ensures
        strs(r@) == workflow_text(*s),
{
    let mut out: Vec<String> = Vec::new();
    push_text(&mut out, "command", "workflow");
    push_text(&mut out, "project", s.project.as_str());
    push_text(&mut out, "state", s.state.as_str());
    if let Some(p) = &s.source_subtitles {
        push_text(&mut out, "source_subtitles", p.as_str());
    }
    if let Some(p) = &s.selected_subtitles {
        push_text(&mut out, "selected_subtitles", p.as_str());
    }
    push_text(&mut out, "review", s.review_file.as_str());
    push_number(&mut out, "review_issues", s.issues.len() as u64);
    if let Some(p) = &s.last_output {
        push_text(&mut out, "last_output", p.as_str());
    }
    push_text(&mut out, "next_action", s.next_action.as_str());
    assert(strs(out@) =~= workflow_text(*s));
    out
}

/// Where `install` put things.
#[derive(Debug, Clone)]
pub struct InstallSummary {
    pub binary_path: String,
    pub config_path: String,
    pub runtime_home: String,
    pub model_path: String,
    pub skill_path: String,
    pub bootstrap_path: String,
    pub config_created: bool,
    pub fixed_packages: Vec<String>,
}

pub open spec fn install_text(i: InstallSummary) -> Seq<Seq<char>> {
    seq![
        kv("installed"@, "true"@),
        kv("binary_path"@, i.binary_path@),
        kv("config_path"@, i.config_path@),
        kv("runtime_home"@, i.runtime_home@),
        kv("model_path"@, i.model_path@),
        kv("skill_path"@, i.skill_path@),
        kv("bootstrap_path"@, i.bootstrap_path@),
        kv("config_created"@, bool_text(i.config_created)),
        kv("fixed_packages"@, listed(strs(i.fixed_packages@), ", "@)),
    ]
}

pub fn install_lines(i: &InstallSummary) -> (r: Vec<String>)
    ensures
        strs(r@) == install_text(*i),
{
    let mut out: Vec<String> = Vec::new();
    push_text(&mut out, "installed", "true");
    push_text(&mut out, "binary_path", i.binary_path.as_str());
    push_text(&mut out, "config_path", i.config_path.as_str());
    push_text(&mut out, "runtime_home", i.runtime_home.as_str());
    push_text(&mut out, "model_path", i.model_path.as_str());
    push_text(&mut out, "skill_path", i.skill_path.as_str());
    push_text(&mut out, "bootstrap_path", i.bootstrap_path.as_str());
    push_bool(&mut out, "config_created", i.config_created);
    push_listed(&mut out, "fixed_packages", &i.fixed_packages, ", ");
    assert(strs(out@) =~= install_text(*i));
    out
}

/// The lines printed after an update: the release installed and what happened to the
/// Homebrew dependencies.
pub open spec fn update_text(
    repo: Seq<char>,
    version: Seq<char>,
    tag: Seq<char>,
    binary_path: Seq<char>,
    d: DependencyUpdateReport,
) -> Seq<Seq<char>> {
    seq![
        kv("updated"@, "true"@),
        kv("repo"@, repo),
        kv("version"@, version),
        kv("tag"@, tag),
        kv("binary_path"@, binary_path),
        kv(
            "dependency_update"@,
            if d.skipped_reason is Some {
                "skipped"@
            } else {
                "completed"@
            },
        ),
        kv("dependency_packages"@, listed(strs(d.updated_packages@), ", "@)),
        kv(
            "dependency_update_reason"@,
            match opt_string(d.skipped_reason) {
                Some(r) => r,
                None => "none"@,
            },
        ),
    ]
}

pub fn update_lines(repo: &str, version: &str, tag: &str, binary_path: &str, d: &DependencyUpdateReport) -> (r: Vec<
    String,
>)
    ensures
        strs(r@) == update_text(repo@, version@, tag@, binary_path@, *d),
{
    let mut out: Vec<String> = Vec::new();
    push_text(&mut out, "updated", "true");
    push_text(&mut out, "repo", repo);
    push_text(&mut out, "version", version);
    push_text(&mut out, "tag", tag);
    push_text(&mut out, "binary_path", binary_path);
    match &d.skipped_reason {
        Some(_) => push_text(&mut out, "dependency_update", "skipped"),
        None => push_text(&mut out, "dependency_update", "completed"),
    }
    push_listed(&mut out, "dependency_packages", &d.updated_packages, ", ");
    match &d.skipped_reason {
        Some(reason) => push_text(&mut out, "dependency_update_reason", reason.as_str()),
        None => push_text(&mut out, "dependency_update_reason", "none"),
    }
    assert(strs(out@) =~= update_text(repo@, version@, tag@, binary_path@, *d));
    out
}

/// The lines printed after an uninstall.
pub open spec fn uninstall_text(
    binary_path: Seq<char>,
    config_path: Seq<char>,
    runtime_home: Seq<char>,
    skill_removed: bool,
) -> Seq<Seq<char>> {
    seq![
        kv("uninstalled"@, "true"@),
        kv("binary_path"@, binary_path),
        kv("config_path"@, config_path),
        kv("runtime_home"@, runtime_home),
        kv("skill_removed"@, bool_text(skill_removed)),
    ]
}

pub fn uninstall_lines(binary_path: &str, config_path: &str, runtime_home: &str, skill_removed: bool) -> (r: Vec<
    String,
>)
    ensures
        strs(r@) == uninstall_text(binary_path@, config_path@, runtime_home@, skill_removed),
{
    let mut out: Vec<String> = Vec::new();
    push_text(&mut out, "uninstalled", "true");
    push_text(&mut out, "binary_path", binary_path);
    push_text(&mut out, "config_path", config_path);
    push_text(&mut out, "runtime_home", runtime_home);
    push_bool(&mut out, "skill_removed", skill_removed);
    assert(strs(out@) =~= uninstall_text(binary_path@, config_path@, runtime_home@, skill_removed));
    out
}

} // verus!
