//! Caption projects: the structural checks that decide whether a revision can be
//! accepted, the alignment of a translation with its source, revision directory
//! names, and the state a project is in.
use vstd::prelude::*;

use crate::config::TranscribeCueConfig;
use crate::paths::{file_name_of, path_file_name};
use crate::subtitles::{srt_models, CueModel, SrtCue};
use crate::text::{
    chars_of, decimal, decimal_chars, extend_chars, has_prefix, lines, lines_of, push_padded,
    str_eq, string_of, trim, zero_pad, ascii_digit, is_ascii_digit, is_blank, views, all_white, trim_chars,
    opt_string,
};

verus! {

broadcast use vstd::string::group_string_axioms;

/// A finding about one cue of a caption revision.
#[derive(Debug, Clone)]
pub struct WorkflowIssue {
    pub stage: String,
    pub cue_id: usize,
    pub kind: String,
    pub message: String,
}

/// Where a caption project stands and what to do next.
#[derive(Debug, Clone)]
pub struct WorkflowStatus {
    pub project: String,
    pub state: String,
    pub media: String,
    pub raw_subtitles: Option<String>,
    pub source_subtitles: Option<String>,
    pub selected_subtitles: Option<String>,
    pub review_file: String,
    pub issues: Vec<WorkflowIssue>,
    pub manually_edited_source: bool,
    pub manually_edited_selected: bool,
    pub next_action: String,
    pub last_output: Option<String>,
}

pub type IssueModel = (Seq<char>, int, Seq<char>, Seq<char>);

pub open spec fn issue_model(i: WorkflowIssue) -> IssueModel {
    (i.stage@, i.cue_id as int, i.kind@, i.message@)
}

pub open spec fn issue_models(v: Seq<WorkflowIssue>) -> Seq<IssueModel> {
    v.map_values(|i: WorkflowIssue| issue_model(i))
}

// ---------------------------------------------------------------------------
// Alignment of a translation with its source.
// ---------------------------------------------------------------------------

/// Same number of cues, and each pair has the same ID and the same timestamps.
pub open spec fn aligned(source: Seq<CueModel>, target: Seq<CueModel>) -> bool {
    source.len() == target.len() && forall|k: int|
        0 <= k < source.len() ==> (#[trigger] source[k]).index == target[k].index && source[k].start
            == target[k].start && source[k].end == target[k].end
}

pub fn ensure_alignment(source: &[SrtCue], target: &[SrtCue]) -> (r: Result<(), String>)
    ensures
        r is Ok <==> aligned(srt_models(source@), srt_models(target@)),
        r matches Err(e) ==> e@
            == "translation cue IDs or timestamps differ from source captions; restore alignment before acceptance"@,
{
    let mut ok = source.len() == target.len();
    if ok {
        let mut k: usize = 0;
        while k < source.len()
            invariant
                k <= source.len() == target.len(),
                ok == forall|j: int|
                    0 <= j < k ==> (#[trigger] srt_models(source@)[j]).index == srt_models(
                        target@,
                    )[j].index && srt_models(source@)[j].start == srt_models(target@)[j].start
                        && srt_models(source@)[j].end == srt_models(target@)[j].end,
            decreases source.len() - k,
        {
            let a = &source[k];
            let b = &target[k];
            assert(srt_models(source@)[k as int] == a@);
            assert(srt_models(target@)[k as int] == b@);
            if a.index != b.index || a.start_ms != b.start_ms || a.end_ms != b.end_ms {
                ok = false;
            }
            k += 1;
        }
    }
    if ok {
        Ok(())
    } else {
        Err(
            "translation cue IDs or timestamps differ from source captions; restore alignment before acceptance".to_owned(),
        )
    }
}

// ---------------------------------------------------------------------------
// Structural checks of a caption revision.
// ---------------------------------------------------------------------------

/// Characters that take the CJK line limit in caption projects.
pub open spec fn project_cjk(c: char) -> bool {
    ('\u{3400}' <= c && c <= '\u{9fff}') || ('\u{3040}' <= c && c <= '\u{30ff}') || ('\u{ac00}' <= c
        && c <= '\u{d7af}')
}

pub open spec fn has_project_cjk(s: Seq<char>) -> bool {
    exists|k: int| 0 <= k < s.len() && project_cjk(#[trigger] s[k])
}

pub open spec fn line_limit_for(line: Seq<char>, policy: TranscribeCueConfig) -> int {
    if has_project_cjk(line) {
        policy.max_cjk_chars_per_line as int
    } else {
        policy.max_chars_per_line as int
    }
}

pub open spec fn issue(stage: Seq<char>, id: int, kind: Seq<char>, message: Seq<char>) -> IssueModel {
    (stage, id, kind, message)
}

/// The line-length issues of `ls`, in order.
pub open spec fn line_issues(ls: Seq<Seq<char>>, policy: TranscribeCueConfig, stage: Seq<char>, id: int) -> Seq<IssueModel>
    decreases ls.len(),
{
    if ls.len() == 0 {
        seq![]
    } else {
        let limit = line_limit_for(ls.last(), policy);
        line_issues(ls.drop_last(), policy, stage, id) + if ls.last().len() > limit {
            seq![
                issue(
                    stage,
                    id,
                    "line_length"@,
                    "Line exceeds "@ + decimal(limit as nat)
                        + " characters; inspect wrapping at the chosen font size."@,
                ),
            ]
        } else {
            seq![]
        }
    }
}

/// The readability issues of one structurally valid cue.
pub open spec fn cue_issues(c: CueModel, policy: TranscribeCueConfig, stage: Seq<char>) -> Seq<IssueModel> {
    let length = c.end - c.start;
    (if length < policy.min_duration_ms {
        seq![
            issue(
                stage,
                c.index,
                "short_cue"@,
                "Cue lasts "@ + decimal(length as nat)
                    + "ms; check whether it can be read comfortably."@,
            ),
        ]
    } else {
        seq![]
    }) + (if length > policy.max_duration_ms {
        seq![issue(stage, c.index, "long_cue"@, "Cue lasts "@ + decimal(length as nat) + "ms."@)]
    } else {
        seq![]
    }) + (if lines(c.text).len() > policy.max_lines {
        seq![
            issue(
                stage,
                c.index,
                "line_count"@,
                "Too many caption lines; check placement and wrapping."@,
            ),
        ]
    } else {
        seq![]
    }) + line_issues(lines(c.text), policy, stage, c.index)
}

/// Whether a cue's index appears among the first `k` cues.
pub open spec fn index_seen(cues: Seq<CueModel>, k: int, index: int) -> bool {
    exists|j: int| 0 <= j < k && (#[trigger] cues[j]).index == index
}

/// The result of checking cues from `i` on, after a previous cue ending at `previous_end`.
pub open spec fn checked_from(
    cues: Seq<CueModel>,
    i: int,
    previous_end: int,
    end_limit: int,
    policy: TranscribeCueConfig,
    stage: Seq<char>,
) -> Result<Seq<IssueModel>, Seq<char>>
    decreases cues.len() - i,
{
    if i >= cues.len() || i < 0 {
        Ok(seq![])
    } else {
        let c = cues[i];
        if c.index == 0 || index_seen(cues, i, c.index) {
            Err(stage + " captions have an invalid or duplicate cue ID "@ + decimal(c.index as nat))
        } else if trim(c.text).len() == 0 || c.start < previous_end || c.end <= c.start {
            Err(
                stage + " cue "@ + decimal(c.index as nat)
                    + " has empty text, invalid timing or overlaps the previous cue"@,
            )
        } else if c.end > end_limit {
            Err(stage + " cue "@ + decimal(c.index as nat) + " extends beyond the video"@)
        } else {
            match checked_from(cues, i + 1, c.end, end_limit, policy, stage) {
                Ok(rest) => Ok(cue_issues(c, policy, stage) + rest),
                Err(e) => Err(e),
            }
        }
    }
}

/// The structural verdict on a revision's cues. `end_limit_ms` is the last
/// millisecond a cue may end at (the video's duration plus a small allowance).
pub open spec fn checked_cues(
    cues: Seq<CueModel>,
    end_limit: int,
    policy: TranscribeCueConfig,
    stage: Seq<char>,
) -> Result<Seq<IssueModel>, Seq<char>> {
    if cues.len() == 0 {
        Err(stage + " captions contain no cues"@)
    } else {
        checked_from(cues, 0, 0, end_limit, policy, stage)
    }
}

fn message3(a: &str, b: &[char], c: &str) -> (r: String)
    ensures
        r@ == a@ + b@ + c@,
{
    let mut v = chars_of(a);
    extend_chars(&mut v, b);
    extend_chars(&mut v, &chars_of(c));
    string_of(&v)
}

fn new_issue(stage: &str, id: usize, kind: &str, message: String) -> (r: WorkflowIssue)
    ensures
        issue_model(r) == issue(stage@, id as int, kind@, message@),
{
    WorkflowIssue { stage: stage.to_owned(), cue_id: id, kind: kind.to_owned(), message }
}

fn has_cjk_line(line: &[char]) -> (r: bool)
    ensures
        r == has_project_cjk(line@),
{
    let mut k: usize = 0;
    while k < line.len()
        invariant
            k <= line.len(),
            forall|j: int| 0 <= j < k ==> !project_cjk(#[trigger] line@[j]),
        decreases line.len() - k,
    {
        let c = line[k];
        if ('\u{3400}' <= c && c <= '\u{9fff}') || ('\u{3040}' <= c && c <= '\u{30ff}') || (
        '\u{ac00}' <= c && c <= '\u{d7af}') {
            return true;
        }
        k += 1;
    }
    false
}

fn cue_issue_list(cue: &SrtCue, policy: &TranscribeCueConfig, stage: &str) -> (r: Vec<WorkflowIssue>)
    requires
        cue.end_ms > cue.start_ms,
        cue.start_ms >= 0,
    ensures
        issue_models(r@) == cue_issues(cue@, *policy, stage@),
{
    let length = (cue.end_ms - cue.start_ms) as u64;
    let length_text = decimal_chars(length);
    let mut out: Vec<WorkflowIssue> = Vec::new();
    if length < policy.min_duration_ms {
        out.push(
            new_issue(
                stage,
                cue.index,
                "short_cue",
                message3("Cue lasts ", &length_text, "ms; check whether it can be read comfortably."),
            ),
        );
    }
    if length > policy.max_duration_ms {
        out.push(new_issue(stage, cue.index, "long_cue", message3("Cue lasts ", &length_text, "ms.")));
    }
    let text = chars_of(cue.text.as_str());
    let ls = lines_of(&text);
    if ls.len() > policy.max_lines {
        out.push(
            new_issue(
                stage,
                cue.index,
                "line_count",
                "Too many caption lines; check placement and wrapping.".to_owned(),
            ),
        );
    }
    let ghost head = issue_models(out@);
    assert(head =~= cue_issues(cue@, *policy, stage@).subrange(0, head.len() as int)) by {
        assert(cue_issues(cue@, *policy, stage@) =~= head + line_issues(lines(cue@.text), *policy, stage@, cue.index as int));
    }
    let mut k: usize = 0;
    while k < ls.len()
        invariant
            k <= ls.len(),
            views(ls@) == lines(cue@.text),
            issue_models(out@) == head + line_issues(views(ls@).subrange(0, k as int), *policy, stage@, cue.index as int),
        decreases ls.len() - k,
    {
        let line = &ls[k];
        let limit = if has_cjk_line(line) {
            policy.max_cjk_chars_per_line
        } else {
            policy.max_chars_per_line
        };
        let ghost before = issue_models(out@);
        proof {
            let prefix = views(ls@).subrange(0, k as int + 1);
            assert(prefix.drop_last() =~= views(ls@).subrange(0, k as int));
            assert(prefix.last() == line@);
        }
        if line.len() > limit {
            let issue_made = new_issue(
                stage,
                cue.index,
                "line_length",
                message3(
                    "Line exceeds ",
                    &decimal_chars(limit as u64),
                    " characters; inspect wrapping at the chosen font size.",
                ),
            );
            out.push(issue_made);
            assert(issue_models(out@) =~= before.push(issue_model(issue_made)));
        }
        k += 1;
    }
    assert(views(ls@).subrange(0, ls.len() as int) =~= views(ls@));
    assert(issue_models(out@) =~= cue_issues(cue@, *policy, stage@));
    out
}

/// Checks a revision's cues: IDs positive and unique, text present, cues in order
/// without overlaps and ending by `end_limit_ms`; collects readability issues.
pub fn check_cues(
    cues: &[SrtCue],
    end_limit_ms: i64,
    policy: &TranscribeCueConfig,
    stage: &str,
) -> (r: Result<Vec<WorkflowIssue>, String>)
    ensures
        match r {
            Ok(v) => checked_cues(srt_models(cues@), end_limit_ms as int, *policy, stage@) == Ok::<
                Seq<IssueModel>,
                Seq<char>,
            >(issue_models(v@)),
            Err(e) => checked_cues(srt_models(cues@), end_limit_ms as int, *policy, stage@) == Err::<
                Seq<IssueModel>,
                Seq<char>,
            >(e@),
        },
{
    let ghost models = srt_models(cues@);
    if cues.len() == 0 {
        return Err(crate::text::concat_str(stage, " captions contain no cues"));
    }
    let mut issues: Vec<WorkflowIssue> = Vec::new();
    let mut previous_end: i64 = 0;
    let mut i: usize = 0;
    while i < cues.len()
        invariant
            i <= cues.len(),
            models == srt_models(cues@),
            previous_end >= 0,
            checked_from(models, 0, 0, end_limit_ms as int, *policy, stage@) == match checked_from(
                models,
                i as int,
                previous_end as int,
                end_limit_ms as int,
                *policy,
                stage@,
            ) {
                Ok(rest) => Ok(issue_models(issues@) + rest),
                Err(e) => Err::<Seq<IssueModel>, Seq<char>>(e),
            },
        decreases cues.len() - i,
    {
        let cue = &cues[i];
        assert(models[i as int] == cue@);
        let mut seen = false;
        let mut j: usize = 0;
        while j < i
            invariant
                j <= i < cues.len(),
                models == srt_models(cues@),
                seen == exists|q: int| 0 <= q < j && (#[trigger] models[q]).index == cue@.index,
            decreases i - j,
        {
            assert(models[j as int] == cues@[j as int]@);
            if cues[j].index == cue.index {
                seen = true;
            }
            j += 1;
        }
        let index_text = decimal_chars(cue.index as u64);
        if cue.index == 0 || seen {
            let mut v = chars_of(stage);
            extend_chars(&mut v, &chars_of(" captions have an invalid or duplicate cue ID "));
            extend_chars(&mut v, &index_text);
            return Err(string_of(&v));
        }
        if is_blank(&chars_of(cue.text.as_str())) || cue.start_ms < previous_end || cue.end_ms <= cue.start_ms {
            let mut v = chars_of(stage);
            extend_chars(&mut v, &chars_of(" cue "));
            extend_chars(&mut v, &index_text);
            extend_chars(&mut v, &chars_of(" has empty text, invalid timing or overlaps the previous cue"));
            return Err(string_of(&v));
        }
        if cue.end_ms > end_limit_ms {
            let mut v = chars_of(stage);
            extend_chars(&mut v, &chars_of(" cue "));
            extend_chars(&mut v, &index_text);
            extend_chars(&mut v, &chars_of(" extends beyond the video"));
            return Err(string_of(&v));
        }
        let found = cue_issue_list(cue, policy, stage);
        let ghost before = issue_models(issues@);
        proof {
            assert(seen == index_seen(models, i as int, cue@.index));
            assert(checked_from(models, i as int, previous_end as int, end_limit_ms as int, *policy, stage@)
                == match checked_from(models, i + 1, cue@.end, end_limit_ms as int, *policy, stage@) {
                Ok(rest) => Ok(cue_issues(cue@, *policy, stage@) + rest),
                Err(e) => Err::<Seq<IssueModel>, Seq<char>>(e),
            });
            match checked_from(models, i + 1, cue@.end, end_limit_ms as int, *policy, stage@) {
                Ok(rest) => {
                    assert(before + (cue_issues(cue@, *policy, stage@) + rest) =~= (before + cue_issues(cue@, *policy, stage@)) + rest);
                },
                Err(e) => {},
            }
        }
        let mut q: usize = 0;
        while q < found.len()
            invariant
                q <= found.len(),
                issue_models(issues@) == before + issue_models(found@).subrange(0, q as int),
            decreases found.len() - q,
        {
            let item = WorkflowIssue {
                stage: found[q].stage.clone(),
                cue_id: found[q].cue_id,
                kind: found[q].kind.clone(),
                message: found[q].message.clone(),
            };
            let ghost mid = issue_models(issues@);
            issues.push(item);
            assert(issue_models(issues@) =~= mid.push(issue_models(found@)[q as int]));
            q += 1;
            assert(issue_models(found@).subrange(0, q as int) =~= issue_models(found@).subrange(0, q - 1).push(issue_models(found@)[q - 1]));
        }
        assert(issue_models(found@).subrange(0, found.len() as int) =~= issue_models(found@));
        previous_end = cue.end_ms;
        i += 1;
    }
    Ok(issues)
}

// ---------------------------------------------------------------------------
// Revision directories.
// ---------------------------------------------------------------------------

/// A revision directory name: `<kind>-` and one or more ASCII digits.
pub open spec fn revision_name_valid(directory: Seq<char>, kind: Seq<char>) -> bool {
    let prefix = kind + seq!['-'];
    has_prefix(directory, prefix) && directory.len() > prefix.len() && forall|k: int|
        prefix.len() <= k < directory.len() ==> ascii_digit(#[trigger] directory[k])
}

pub fn is_revision_name(directory: &str, kind: &str) -> (r: bool)
    ensures
        r == revision_name_valid(directory@, kind@),
{
    let d = chars_of(directory);
    let mut prefix = chars_of(kind);
    prefix.push('-');
    assert(prefix@ =~= kind@ + seq!['-']);
    if !crate::text::starts_with(&d, &prefix) || d.len() <= prefix.len() {
        return false;
    }
    let mut k = prefix.len();
    while k < d.len()
        invariant
            prefix.len() <= k <= d.len(),
            d@ == directory@,
            prefix@ == kind@ + seq!['-'],
            has_prefix(d@, prefix@),
            forall|j: int| prefix.len() <= j < k ==> ascii_digit(#[trigger] d@[j]),
        decreases d.len() - k,
    {
        if !is_ascii_digit(d[k]) {
            assert(!ascii_digit(directory@[k as int]));
            return false;
        }
        k += 1;
    }
    true
}

/// The name of revision `index` of a stage: `<kind>-` and the index, at least four digits.
pub fn revision_name(kind: &str, index: u64) -> (r: String)
    ensures
        r@ == kind@ + seq!['-'] + zero_pad(decimal(index as nat), 4),
{
    let mut v = chars_of(kind);
    v.push('-');
    push_padded(&mut v, index, 4);
    string_of(&v)
}

// ---------------------------------------------------------------------------
// Project state.
// ---------------------------------------------------------------------------

/// The facts about a project that decide its state.
#[derive(Debug, Clone, Copy)]
pub struct ProjectFacts {
    pub raw_present: bool,
    pub source_present: bool,
    pub translating: bool,
    pub target_present: bool,
    pub target_current: bool,
    pub acceptance_current: bool,
    pub render_current: bool,
}

pub open spec fn state_of(f: ProjectFacts) -> (Seq<char>, Seq<char>) {
    let resume = "Run `lilaccaps workflow resume <project>`."@;
    if !f.source_present {
        (if f.raw_present {
            "source_review_pending"@
        } else {
            "transcription_pending"@
        }, resume)
    } else if f.translating && !f.target_present {
        ("translation_pending"@, resume)
    } else if f.translating && !f.target_current {
        (
            "translation_stale"@,
            "Source captions changed. Run `lilaccaps workflow resume <project>` to create a new translation revision."@,
        )
    } else if !f.acceptance_current {
        (
            "review_required"@,
            "Review the SRT and review.md, resolve or acknowledge the issues, then run `lilaccaps workflow accept <project> --note <review-note>`."@,
        )
    } else if !f.render_current {
        (
            "accepted"@,
            "Run `lilaccaps workflow render <project>`; font and size can be set for this render."@,
        )
    } else {
        ("rendered"@, "Inspect the rendered video and its saved verification report."@)
    }
}

/// The state of a project and the next action to suggest.
/// A project can be rendered only from captions whose acceptance is current: the state
/// is `accepted` or `rendered` only when the reviewed source exists, a requested
/// translation matches the current source, and the recorded acceptance matches the
/// current captions and watermark; and it is `rendered` only when the last render is
/// also current.
pub proof fn lemma_render_needs_current_acceptance(f: ProjectFacts)
    ensures
        (state_of(f).0 == "accepted"@ || state_of(f).0 == "rendered"@) ==> {
            &&& f.source_present
            &&& (f.translating ==> f.target_present && f.target_current)
            &&& f.acceptance_current
        },
        state_of(f).0 == "rendered"@ ==> f.render_current,
{
    reveal_strlit("accepted");
    reveal_strlit("rendered");
    reveal_strlit("source_review_pending");
    reveal_strlit("transcription_pending");
    reveal_strlit("translation_pending");
    reveal_strlit("translation_stale");
    reveal_strlit("review_required");
    let state = state_of(f).0;
    if !f.source_present || (f.translating && !(f.target_present && f.target_current))
        || !f.acceptance_current {
        assert(state.len() != 8);
    } else if !f.render_current {
        assert(state[0] == 'a');
    }
    assert("accepted"@.len() == 8 && "rendered"@.len() == 8);
    assert("accepted"@[0] == 'a' && "rendered"@[0] == 'r');
}

pub fn project_state(f: ProjectFacts) -> (r: (String, String))
    ensures
        (r.0@, r.1@) == state_of(f),
{
    let resume = "Run `lilaccaps workflow resume <project>`.";
    if !f.source_present {
        let state = if f.raw_present {
            "source_review_pending"
        } else {
            "transcription_pending"
        };
        return (state.to_owned(), resume.to_owned());
    }
    if f.translating && !f.target_present {
        return ("translation_pending".to_owned(), resume.to_owned());
    }
    if f.translating && !f.target_current {
        return (
            "translation_stale".to_owned(),
            "Source captions changed. Run `lilaccaps workflow resume <project>` to create a new translation revision.".to_owned(),
        );
    }
    if !f.acceptance_current {
        return (
            "review_required".to_owned(),
            "Review the SRT and review.md, resolve or acknowledge the issues, then run `lilaccaps workflow accept <project> --note <review-note>`.".to_owned(),
        );
    }
    if !f.render_current {
        return (
            "accepted".to_owned(),
            "Run `lilaccaps workflow render <project>`; font and size can be set for this render.".to_owned(),
        );
    }
    ("rendered".to_owned(), "Inspect the rendered video and its saved verification report.".to_owned())
}

// ---------------------------------------------------------------------------
// Starting and rendering.
// ---------------------------------------------------------------------------

/// The target language of a new project: the requested one trimmed, refused when it is
/// blank; none when no translation was requested.
pub fn target_language_arg(to: Option<&str>) -> (r: Result<Option<String>, String>)
    ensures
        match to {
            None => r matches Ok(None),
            Some(t) => if trim(t@).len() == 0 {
                r matches Err(e) && e@ == "target language must not be empty"@
            } else {
                r matches Ok(Some(l)) && l@ == trim(t@)
            },
        },
{
    match to {
        None => Ok(None),
        Some(t) => {
            let trimmed = trim_chars(&chars_of(t));
            if trimmed.len() == 0 {
                Err(string_of(&chars_of("target language must not be empty")))
            } else {
                Ok(Some(string_of(&trimmed)))
            }
        },
    }
}

/// A project's context and glossary text must stay within the review's limit.
pub fn check_project_context(context: &str) -> (r: Result<(), String>)
    ensures
        match r {
            Ok(()) => crate::caption_agent::context_error(context@) is None,
            Err(e) => crate::caption_agent::context_error(context@) == Some(e@),
        },
{
    let n = chars_of(context).len();
    if n > crate::caption_agent::MAX_CONTEXT_CHARACTERS {
        return Err(string_of(&chars_of("caption context is too long; use a glossary or summary under 32,000 characters")));
    }
    Ok(())
}

/// Rendering starts only from the `accepted` and `rendered` states; otherwise the
/// error names the state and the next action.
pub fn render_state_gate(state: &str, next_action: &str) -> (r: Result<(), String>)
    ensures
        match r {
            Ok(()) => state@ == "accepted"@ || state@ == "rendered"@,
            Err(e) => !(state@ == "accepted"@ || state@ == "rendered"@) && e@ == "workflow is "@ + state@ + "; "@
                + next_action@,
        },
{
    if str_eq(state, "accepted") || str_eq(state, "rendered") {
        return Ok(());
    }
    let mut m = chars_of("workflow is ");
    extend_chars(&mut m, &chars_of(state));
    extend_chars(&mut m, &chars_of("; "));
    extend_chars(&mut m, &chars_of(next_action));
    Err(string_of(&m))
}

/// Rendering needs the captions and watermark to be those that were accepted: the
/// current fingerprint must equal the one recorded at acceptance.
pub fn fingerprint_gate(accepted: &str, current: &str) -> (r: Result<(), String>)
    ensures
        r is Ok <==> accepted@ == current@,
        r matches Err(e) ==> e@ == "captions or watermark changed after acceptance; review and accept them again"@,
{
    if str_eq(accepted, current) {
        Ok(())
    } else {
        Err(string_of(&chars_of("captions or watermark changed after acceptance; review and accept them again")))
    }
}

// ---------------------------------------------------------------------------
// Resuming and accepting.
// ---------------------------------------------------------------------------

/// What `resume` must do, in order.
#[derive(Debug, Clone, Copy)]
pub struct ResumePlan {
    pub transcribe: bool,
    pub review_source: bool,
    pub translate: bool,
}

/// Decides the steps of `resume`: transcribe when no raw transcript is recorded and
/// none is on disk; review the source when it has no reviewed revision or a new review
/// is asked for; translate when the project has a target language and a retranslation
/// is asked for, there is no translation yet, or it was made from other source captions
/// (`target_current`). A retranslation without a target language is refused.
pub fn resume_plan(
    has_target_language: bool,
    retranslate: bool,
    raw_recorded: bool,
    raw_file_exists: bool,
    source_present: bool,
    review_source: bool,
    target_present: bool,
    target_current: bool,
) -> (r: Result<ResumePlan, String>)
    ensures
        retranslate && !has_target_language <==> r is Err,
        r matches Err(e) ==> e@ == "this project has no target language to translate"@,
        r matches Ok(p) ==> {
            &&& p.transcribe == (!raw_recorded && !raw_file_exists)
            &&& p.review_source == (!source_present || review_source)
            &&& p.translate == (has_target_language && (retranslate || !target_present || !target_current))
        },
{
    if retranslate && !has_target_language {
        return Err(string_of(&chars_of("this project has no target language to translate")));
    }
    Ok(ResumePlan {
        transcribe: !raw_recorded && !raw_file_exists,
        review_source: !source_present || review_source,
        translate: has_target_language && (retranslate || !target_present || !target_current),
    })
}

/// What an acceptance records besides its time and fingerprint.
#[derive(Debug, Clone)]
pub struct AcceptanceRecord {
    pub note: String,
    pub issues_acknowledged: usize,
    pub manually_edited_source: bool,
    pub manually_edited_selected: bool,
}

/// Why an acceptance is refused, if it is: an empty note; a project that is not ready
/// for review; a fingerprint that is missing or changed while accepting.
pub open spec fn acceptance_error(
    note: Seq<char>,
    state: Seq<char>,
    next_action: Seq<char>,
    fingerprint_ready: bool,
    fingerprint_unchanged: bool,
) -> Option<Seq<char>> {
    if all_white(note) {
        Some("review note must describe what was checked"@)
    } else if !(state == "review_required"@ || state == "accepted"@ || state == "rendered"@) {
        Some("workflow is "@ + state + "; "@ + next_action)
    } else if !fingerprint_ready {
        Some("review fingerprint is not ready"@)
    } else if !fingerprint_unchanged {
        Some("captions or watermark changed during acceptance; review and accept them again"@)
    } else {
        None
    }
}

/// Accepts the current review of a project: the note (trimmed), how many issues it
/// acknowledges and whether the captions were edited by hand.
pub fn accept(note: &str, current: &WorkflowStatus, fingerprint_ready: bool, fingerprint_unchanged: bool) -> (r:
    Result<AcceptanceRecord, String>)
    ensures
        match r {
            Ok(a) => {
                &&& acceptance_error(
                    note@,
                    current.state@,
                    current.next_action@,
                    fingerprint_ready,
                    fingerprint_unchanged,
                ) is None
                &&& a.note@ == trim(note@)
                &&& a.issues_acknowledged == current.issues@.len()
                &&& a.manually_edited_source == current.manually_edited_source
                &&& a.manually_edited_selected == current.manually_edited_selected
            },
            Err(e) => acceptance_error(
                note@,
                current.state@,
                current.next_action@,
                fingerprint_ready,
                fingerprint_unchanged,
            ) == Some(e@),
        },
{
    let n = chars_of(note);
    if is_blank(&n) {
        return Err(string_of(&chars_of("review note must describe what was checked")));
    }
    let state = current.state.as_str();
    if !(str_eq(state, "review_required") || str_eq(state, "accepted") || str_eq(state, "rendered")) {
        let mut v = chars_of("workflow is ");
        extend_chars(&mut v, &chars_of(state));
        extend_chars(&mut v, &chars_of("; "));
        extend_chars(&mut v, &chars_of(current.next_action.as_str()));
        return Err(string_of(&v));
    }
    if !fingerprint_ready {
        return Err(string_of(&chars_of("review fingerprint is not ready")));
    }
    if !fingerprint_unchanged {
        return Err(string_of(&chars_of("captions or watermark changed during acceptance; review and accept them again")));
    }
    Ok(AcceptanceRecord {
        note: string_of(&trim_chars(&n)),
        issues_acknowledged: current.issues.len(),
        manually_edited_source: current.manually_edited_source,
        manually_edited_selected: current.manually_edited_selected,
    })
}

// ---------------------------------------------------------------------------
// The review note.
// ---------------------------------------------------------------------------

/// The last render of a project, as `review.md` links it.
#[derive(Debug, Clone)]
pub struct RenderLink {
    pub output: String,
    pub verification: String,
    pub verification_path: String,
}

pub open spec fn bool_word(b: bool) -> Seq<char> {
    if b {
        "true"@
    } else {
        "false"@
    }
}

pub open spec fn or_empty(o: Option<Seq<char>>) -> Seq<char> {
    match o {
        Some(v) => v,
        None => seq![],
    }
}

/// A link line to a caption file, when there is one.
pub open spec fn file_link(label: Seq<char>, file: Option<Seq<char>>) -> Seq<char> {
    match file {
        Some(f) => "- "@ + label + ": ["@ + or_empty(path_file_name(f)) + "]("@ + f + ")\n"@,
        None => seq![],
    }
}

/// `s` with each line break made a space.
pub open spec fn one_line(s: Seq<char>) -> Seq<char> {
    Seq::new(s.len(), |k: int| if s[k] == '\n' { ' ' } else { s[k] })
}

pub open spec fn issue_line(i: WorkflowIssue) -> Seq<char> {
    "- "@ + i.stage@ + " cue "@ + decimal(i.cue_id as nat) + " / "@ + i.kind@ + ": "@ + one_line(i.message@) + "\n"@
}

pub open spec fn issue_lines(v: Seq<WorkflowIssue>) -> Seq<char>
    decreases v.len(),
{
    if v.len() == 0 {
        seq![]
    } else {
        issue_lines(v.drop_last()) + issue_line(v.last())
    }
}

pub open spec fn text_only_note() -> Seq<char> {
    "\nThe agent used text and neighbouring cues. It did not listen to the audio. Check uncertain phrases against the recording, then review names, numbers, meaning, and reading speed. Each revision has a JSON report. Edit the selected SRT to make corrections. Source edits after translation require `workflow resume` to create a fresh target revision; previous files are kept.\n"@
}

pub open spec fn no_issues_note() -> Seq<char> {
    "No automated issues were found. This does not establish transcription or translation accuracy.\n"@
}

pub open spec fn review_head(status: WorkflowStatus) -> Seq<char> {
    "# Caption review\n\nState: **"@ + status.state@ + "**\n\nSource media: `"@ + status.media@ + "`\n\n"@
        + file_link("Raw transcript"@, opt_string(status.raw_subtitles))
        + file_link("Reviewed source"@, opt_string(status.source_subtitles))
        + file_link("Selected captions"@, opt_string(status.selected_subtitles))
        + text_only_note()
        + "\nSource edited after its agent pass: **"@ + bool_word(status.manually_edited_source)
        + "**. Selected captions edited after their agent pass: **"@ + bool_word(status.manually_edited_selected)
        + "**.\n"@
}

pub open spec fn review_watermark(watermark: Option<Seq<char>>) -> Seq<char> {
    match watermark {
        Some(name) => "\nWatermark: `"@ + name + "` (a project copy with its own assets).\n"@,
        None => seq![],
    }
}

pub open spec fn review_issues(status: WorkflowStatus) -> Seq<char> {
    "\n## Review issues\n\n"@ + (if status.issues@.len() == 0 {
        no_issues_note()
    } else {
        seq![]
    }) + issue_lines(status.issues@)
}

pub open spec fn review_acceptance(acceptance: Option<(Seq<char>, nat)>) -> Seq<char> {
    match acceptance {
        Some((note, n)) => "\n## Last acceptance\n\n"@ + note + "\n\nAcknowledged issues: "@ + decimal(n)
            + ". The acceptance applies only while the captions and watermark match the recorded fingerprints.\n"@,
        None => seq![],
    }
}

pub open spec fn review_tail(next_action: Seq<char>, render: Option<RenderLink>) -> Seq<char> {
    "\n## Next action\n\n"@ + next_action + "\n"@ + match render {
        Some(r) => "\nOutput: ["@ + r.output@ + "]("@ + r.output@ + ")\n\nVerification: ["@ + r.verification@
            + "]("@ + r.verification_path@ + ")\n"@,
        None => seq![],
    }
}

/// The text of `review.md`.
pub open spec fn review_text(
    status: WorkflowStatus,
    watermark: Option<Seq<char>>,
    acceptance: Option<(Seq<char>, nat)>,
    render: Option<RenderLink>,
) -> Seq<char> {
    review_head(status) + review_watermark(watermark) + review_issues(status) + review_acceptance(acceptance)
        + review_tail(status.next_action@, render)
}

fn push_str(out: &mut Vec<char>, s: &str)
    ensures
        final(out)@ == old(out)@ + s@,
{
    extend_chars(out, &chars_of(s));
}

fn push_file_link(out: &mut Vec<char>, label: &str, file: &Option<String>)
    ensures
        final(out)@ == old(out)@ + file_link(label@, opt_string(*file)),
{
    match file {
        Some(f) => {
            let name = match file_name_of(f.as_str()) {
                Some(n) => n,
                None => String::new(),
            };
            let ghost start = out@;
            push_str(out, "- ");
            push_str(out, label);
            push_str(out, ": [");
            push_str(out, name.as_str());
            push_str(out, "](");
            push_str(out, f.as_str());
            push_str(out, ")\n");
            assert(out@ =~= start + file_link(label@, opt_string(*file)));
        },
        None => {
            assert(out@ =~= out@ + seq![]);
        },
    }
}

fn push_issue(out: &mut Vec<char>, i: &WorkflowIssue)
    ensures
        final(out)@ == old(out)@ + issue_line(*i),
{
    let ghost start = out@;
    push_str(out, "- ");
    push_str(out, i.stage.as_str());
    push_str(out, " cue ");
    extend_chars(out, &decimal_chars(i.cue_id as u64));
    push_str(out, " / ");
    push_str(out, i.kind.as_str());
    push_str(out, ": ");
    let m = chars_of(i.message.as_str());
    let mut flat: Vec<char> = Vec::new();
    let mut k: usize = 0;
    while k < m.len()
        invariant
            k <= m.len(),
            flat@ =~= one_line(m@).subrange(0, k as int),
        decreases m.len() - k,
    {
        if m[k] == '\n' {
            flat.push(' ');
        } else {
            flat.push(m[k]);
        }
        k += 1;
    }
    assert(one_line(m@).subrange(0, m.len() as int) =~= one_line(m@));
    extend_chars(out, &flat);
    push_str(out, "\n");
    assert(out@ =~= start + issue_line(*i));
}

fn push_bool_word(out: &mut Vec<char>, b: bool)
    ensures
        final(out)@ == old(out)@ + bool_word(b),
{
    proof {
        reveal_strlit("true");
        reveal_strlit("false");
    }
    if b {
        push_str(out, "true");
    } else {
        push_str(out, "false");
    }
}

fn push_links(out: &mut Vec<char>, status: &WorkflowStatus)
    ensures
        final(out)@ == old(out)@ + "# Caption review\n\nState: **"@ + status.state@ + "**\n\nSource media: `"@
            + status.media@ + "`\n\n"@ + file_link("Raw transcript"@, opt_string(status.raw_subtitles))
            + file_link("Reviewed source"@, opt_string(status.source_subtitles))
            + file_link("Selected captions"@, opt_string(status.selected_subtitles)),
{
    let ghost start = out@;
    push_str(out, "# Caption review\n\nState: **");
    push_str(out, status.state.as_str());
    push_str(out, "**\n\nSource media: `");
    push_str(out, status.media.as_str());
    push_str(out, "`\n\n");
    let ghost a = out@;
    push_file_link(out, "Raw transcript", &status.raw_subtitles);
    push_file_link(out, "Reviewed source", &status.source_subtitles);
    push_file_link(out, "Selected captions", &status.selected_subtitles);
    assert(a =~= start + "# Caption review\n\nState: **"@ + status.state@ + "**\n\nSource media: `"@
        + status.media@ + "`\n\n"@);
}

fn push_head(out: &mut Vec<char>, status: &WorkflowStatus)
    ensures
        final(out)@ == old(out)@ + review_head(*status),
{
    let ghost start = out@;
    push_links(out, status);
    let ghost a = out@;
    push_str(out, "\nThe agent used text and neighbouring cues. It did not listen to the audio. Check uncertain phrases against the recording, then review names, numbers, meaning, and reading speed. Each revision has a JSON report. Edit the selected SRT to make corrections. Source edits after translation require `workflow resume` to create a fresh target revision; previous files are kept.\n");
    push_str(out, "\nSource edited after its agent pass: **");
    push_bool_word(out, status.manually_edited_source);
    push_str(out, "**. Selected captions edited after their agent pass: **");
    push_bool_word(out, status.manually_edited_selected);
    push_str(out, "**.\n");
    assert(out@ =~= a + text_only_note() + "\nSource edited after its agent pass: **"@ + bool_word(
        status.manually_edited_source,
    ) + "**. Selected captions edited after their agent pass: **"@ + bool_word(status.manually_edited_selected)
        + "**.\n"@);
    assert(out@ =~= start + review_head(*status));
}

fn push_issues(out: &mut Vec<char>, status: &WorkflowStatus)
    ensures
        final(out)@ == old(out)@ + review_issues(*status),
{
    let ghost start = out@;
    push_str(out, "\n## Review issues\n\n");
    if status.issues.len() == 0 {
        push_str(out, "No automated issues were found. This does not establish transcription or translation accuracy.\n");
    }
    let ghost before_issues = out@;
    let mut k: usize = 0;
    assert(status.issues@.subrange(0, 0) =~= seq![]);
    assert(out@ =~= before_issues + issue_lines(status.issues@.subrange(0, 0)));
    while k < status.issues.len()
        invariant
            k <= status.issues.len(),
            out@ == before_issues + issue_lines(status.issues@.subrange(0, k as int)),
        decreases status.issues.len() - k,
    {
        push_issue(out, &status.issues[k]);
        proof {
            let prefix = status.issues@.subrange(0, k as int + 1);
            assert(prefix.drop_last() =~= status.issues@.subrange(0, k as int));
            assert(prefix.last() == status.issues@[k as int]);
        }
        k += 1;
        assert(out@ =~= before_issues + issue_lines(status.issues@.subrange(0, k as int)));
    }
    assert(status.issues@.subrange(0, status.issues.len() as int) =~= status.issues@);
    assert(out@ =~= start + review_issues(*status));
}

fn push_rest(
    out: &mut Vec<char>,
    next_action: &str,
    acceptance: &Option<(String, usize)>,
    render: &Option<RenderLink>,
)
    ensures
        final(out)@ == old(out)@ + review_acceptance(
            match *acceptance {
                Some((note, n)) => Some((note@, n as nat)),
                None => None,
            },
        ) + review_tail(next_action@, *render),
{
    let ghost start = out@;
    if let Some((note, n)) = acceptance {
        push_str(out, "\n## Last acceptance\n\n");
        push_str(out, note.as_str());
        push_str(out, "\n\nAcknowledged issues: ");
        extend_chars(out, &decimal_chars(*n as u64));
        push_str(out, ". The acceptance applies only while the captions and watermark match the recorded fingerprints.\n");
    }
    let ghost mid = out@;
    push_str(out, "\n## Next action\n\n");
    push_str(out, next_action);
    push_str(out, "\n");
    if let Some(r) = render {
        push_str(out, "\nOutput: [");
        push_str(out, r.output.as_str());
        push_str(out, "](");
        push_str(out, r.output.as_str());
        push_str(out, ")\n\nVerification: [");
        push_str(out, r.verification.as_str());
        push_str(out, "](");
        push_str(out, r.verification_path.as_str());
        push_str(out, ")\n");
    }
    assert(mid =~= start + review_acceptance(
        match *acceptance {
            Some((note, n)) => Some((note@, n as nat)),
            None => None,
        },
    ));
    assert(out@ =~= mid + review_tail(next_action@, *render));
}

/// The text of `review.md`: state, media, caption files, what text-only review means,
/// hand edits, the watermark, the issues, the last acceptance, the next action and the
/// last render.
pub fn review_markdown(
    status: &WorkflowStatus,
    watermark: &Option<String>,
    acceptance: &Option<(String, usize)>,
    render: &Option<RenderLink>,
) -> (r: String)
    ensures
        r@ == review_text(
            *status,
            opt_string(*watermark),
            match *acceptance {
                Some((note, n)) => Some((note@, n as nat)),
                None => None,
            },
            *render,
        ),
{
    let mut out: Vec<char> = Vec::new();
    push_head(&mut out, status);
    let ghost head = out@;
    if let Some(name) = watermark {
        push_str(&mut out, "\nWatermark: `");
        push_str(&mut out, name.as_str());
        push_str(&mut out, "` (a project copy with its own assets).\n");
    }
    assert(out@ =~= head + review_watermark(opt_string(*watermark)));
    push_issues(&mut out, status);
    push_rest(&mut out, status.next_action.as_str(), acceptance, render);
    string_of(&out)
}

} // verus!
