//! Translation settings and the translation pipeline's decisions: target languages,
//! output names, and the order of the lines of a multilingual cue.
use vstd::prelude::*;

use crate::config::{path_component_count, TranslateConfig};
use crate::paths::{path_file_stem, path_with_file_name, file_stem_of, with_file_name};
use crate::text::{
    ascii_alnum, chars_of, concat3, has_prefix, is_ascii_alphanumeric, is_blank, str_eq,
    string_of, strip_prefix_chars, trim, trim_chars,
};

verus! {

broadcast use vstd::string::group_string_axioms;

/// What a translation run produced.
#[derive(Debug, Clone)]
pub struct TranslateOutput {
    pub input: String,
    pub output: String,
    pub targets: Vec<String>,
    pub append: bool,
    pub model: String,
    pub verification_model: String,
    pub review_report: String,
    pub review_issues: usize,
    pub status: String,
}

/// A model name without an `openai/` or `codex/` provider prefix.
pub open spec fn bare_model(model: Seq<char>) -> Seq<char> {
    if has_prefix(model, "openai/"@) {
        model.subrange(7, model.len() as int)
    } else if has_prefix(model, "codex/"@) {
        model.subrange(6, model.len() as int)
    } else {
        model
    }
}

pub fn model_name(model: &str) -> (r: String)
    ensures
        r@ == bare_model(model@),
{
    let m = chars_of(model);
    proof {
        reveal_strlit("openai/");
        reveal_strlit("codex/");
    }
    if let Some(rest) = strip_prefix_chars(&m, &chars_of("openai/")) {
        return string_of(&rest);
    }
    if let Some(rest) = strip_prefix_chars(&m, &chars_of("codex/")) {
        return string_of(&rest);
    }
    model.to_owned()
}

pub open spec fn model_char(c: char) -> bool {
    ascii_alnum(c) || c == '-' || c == '_' || c == '.'
}

/// A Codex model: non-empty, not a Gemini model, of letters, digits, `-`, `_`, `.`.
pub open spec fn valid_model(model: Seq<char>) -> bool {
    let m = bare_model(model);
    m.len() > 0 && !has_prefix(m, "gemini-"@) && forall|k: int| 0 <= k < m.len() ==> model_char(#[trigger] m[k])
}

pub open spec fn valid_effort(e: Seq<char>) -> bool {
    e == "low"@ || e == "medium"@ || e == "high"@ || e == "xhigh"@ || e == "max"@
}

pub fn validate_model(model: &str, field: &str) -> (r: Result<(), String>)
    ensures
        r is Ok <==> valid_model(model@),
        r matches Err(e) ==> e@ == "invalid Codex model in "@ + field@,
{
    let m = model_name(model);
    let c = chars_of(m.as_str());
    let mut ok = c.len() > 0 && !crate::text::starts_with(&c, &chars_of("gemini-"));
    let mut k: usize = 0;
    while k < c.len()
        invariant
            k <= c.len(),
            c@ == bare_model(model@),
            ok ==> c@.len() > 0 && !has_prefix(c@, "gemini-"@),
            ok ==> forall|j: int| 0 <= j < k ==> model_char(#[trigger] c@[j]),
            !ok ==> !(c@.len() > 0 && !has_prefix(c@, "gemini-"@) && forall|j: int| 0 <= j < c@.len() ==> model_char(#[trigger] c@[j])),
        decreases c.len() - k,
    {
        if !(is_ascii_alphanumeric(c[k]) || c[k] == '-' || c[k] == '_' || c[k] == '.') {
            ok = false;
        }
        k += 1;
    }
    if ok {
        Ok(())
    } else {
        Err(crate::text::concat_str("invalid Codex model in ", field))
    }
}

pub fn validate_effort(effort: &str, field: &str) -> (r: Result<(), String>)
    ensures
        r is Ok <==> valid_effort(effort@),
        r matches Err(e) ==> e@ == field@ + " must be low, medium, high, xhigh, or max"@,
{
    if str_eq(effort, "low") || str_eq(effort, "medium") || str_eq(effort, "high") || str_eq(
        effort,
        "xhigh",
    ) || str_eq(effort, "max") {
        Ok(())
    } else {
        Err(crate::text::concat_str(field, " must be low, medium, high, xhigh, or max"))
    }
}

/// A command that is a bare executable name or an absolute path.
pub open spec fn valid_command(command: Seq<char>) -> bool {
    !(command.len() == 0 || trim(command).len() == 0 || (path_component_count(command) > 1
        && !has_prefix(command, "/"@)))
}

/// The first problem with a command, model or effort of one section.
pub open spec fn agent_config_error(command: Seq<char>, model: Seq<char>, effort: Seq<char>, section: Seq<char>) -> Option<Seq<char>> {
    if !valid_command(command) {
        Some(section + ".command must be an executable name or absolute path"@)
    } else if !valid_model(model) {
        Some("invalid Codex model in "@ + section + ".model"@)
    } else if !valid_effort(effort) {
        Some(section + ".reasoning_effort"@ + " must be low, medium, high, xhigh, or max"@)
    } else {
        None
    }
}

pub fn validate_agent_config(command: &str, model: &str, effort: &str, section: &str) -> (r: Result<(), String>)
    ensures
        r is Ok <==> agent_config_error(command@, model@, effort@, section@) is None,
        r matches Err(e) ==> agent_config_error(command@, model@, effort@, section@) == Some(e@),
{
    let c = chars_of(command);
    let absolute = crate::text::starts_with(&c, &chars_of("/"));
    if c.len() == 0 || is_blank(&c) || (crate::config::component_count_of(command) > 1 && !absolute) {
        return Err(crate::text::concat_str(section, ".command must be an executable name or absolute path"));
    }
    let model_field = crate::text::concat_str(section, ".model");
    validate_model(model, model_field.as_str())?;
    let effort_field = crate::text::concat_str(section, ".reasoning_effort");
    validate_effort(effort, effort_field.as_str())
}

/// The first problem with the translation settings: the first pass's command, model
/// and effort, then the second pass's model and effort.
pub open spec fn translate_config_error(config: TranslateConfig) -> Option<Seq<char>> {
    if agent_config_error(config.command@, config.model@, config.reasoning_effort@, "translate"@) is Some {
        agent_config_error(config.command@, config.model@, config.reasoning_effort@, "translate"@)
    } else if !valid_model(config.review_model@) {
        Some("invalid Codex model in "@ + "translate.review_model"@)
    } else if !valid_effort(config.review_reasoning_effort@) {
        Some("translate.review_reasoning_effort"@ + " must be low, medium, high, xhigh, or max"@)
    } else {
        None
    }
}

/// Checks the translation command, model and effort, then the second-pass model and effort.
pub fn validate_config(config: &TranslateConfig) -> (r: Result<(), String>)
    ensures
        r is Ok <==> translate_config_error(*config) is None,
        r matches Err(e) ==> translate_config_error(*config) == Some(e@),
{
    validate_agent_config(
        config.command.as_str(),
        config.model.as_str(),
        config.reasoning_effort.as_str(),
        "translate",
    )?;
    validate_model(config.review_model.as_str(), "translate.review_model")?;
    validate_effort(config.review_reasoning_effort.as_str(), "translate.review_reasoning_effort")
}

// ---------------------------------------------------------------------------
// The translation pipeline.
// ---------------------------------------------------------------------------

/// The trimmed, non-blank targets, in order.
pub open spec fn kept_targets(ts: Seq<Seq<char>>) -> Seq<Seq<char>>
    decreases ts.len(),
{
    if ts.len() == 0 {
        seq![]
    } else if trim(ts.last()).len() > 0 {
        kept_targets(ts.drop_last()).push(trim(ts.last()))
    } else {
        kept_targets(ts.drop_last())
    }
}

/// Target lists are resolved entry by entry: the targets of two lists one after the
/// other are the targets of the first followed by those of the second, and a single
/// entry gives itself trimmed, or nothing when it is blank. So every non-blank entry
/// is kept, trimmed, in its place, and only blank ones are dropped.
pub proof fn lemma_targets_entry_by_entry(a: Seq<Seq<char>>, b: Seq<Seq<char>>, t: Seq<char>)
    ensures
        kept_targets(a + b) == kept_targets(a) + kept_targets(b),
        kept_targets(seq![t]) == if trim(t).len() > 0 {
            seq![trim(t)]
        } else {
            Seq::<Seq<char>>::empty()
        },
    decreases b.len(),
{
    let single = seq![t];
    assert(single.drop_last() =~= Seq::<Seq<char>>::empty());
    assert(kept_targets(Seq::<Seq<char>>::empty()) =~= Seq::<Seq<char>>::empty());
    if b.len() == 0 {
        assert(a + b =~= a);
        assert(kept_targets(a) + kept_targets(b) =~= kept_targets(a));
    } else {
        lemma_targets_entry_by_entry(a, b.drop_last(), t);
        assert((a + b).drop_last() =~= a + b.drop_last());
        assert((a + b).last() == b.last());
        if trim(b.last()).len() > 0 {
            assert(kept_targets(a) + kept_targets(b.drop_last()).push(trim(b.last())) =~= (kept_targets(a)
                + kept_targets(b.drop_last())).push(trim(b.last())));
        }
    }
}

/// The targets of a run: the command line's when any are given, else the settings'.
pub fn resolve_targets(config_targets: &[String], cli_targets: Vec<String>) -> (r: Result<Vec<String>, String>)
    ensures
        ({
            let chosen = if cli_targets@.len() == 0 {
                config_targets@.map_values(|s: String| s@)
            } else {
                cli_targets@.map_values(|s: String| s@)
            };
            &&& kept_targets(chosen).len() > 0 ==> (r matches Ok(v) && v@.map_values(|s: String| s@)
                == kept_targets(chosen))
            &&& kept_targets(chosen).len() == 0 ==> (r matches Err(e) && e@
                == "no translation targets configured; pass one or more --to <lang> flags or set translate.default_targets in lilaccaps.toml"@)
        }),
{
    let ghost chosen = if cli_targets@.len() == 0 {
        config_targets@.map_values(|s: String| s@)
    } else {
        cli_targets@.map_values(|s: String| s@)
    };
    let source: &[String] = if cli_targets.len() == 0 {
        config_targets
    } else {
        cli_targets.as_slice()
    };
    assert(source@.map_values(|s: String| s@) == chosen);
    let mut out: Vec<String> = Vec::new();
    let mut i: usize = 0;
    while i < source.len()
        invariant
            i <= source.len(),
            source@.map_values(|s: String| s@) == chosen,
            out@.map_values(|s: String| s@) == kept_targets(chosen.subrange(0, i as int)),
        decreases source.len() - i,
    {
        let t = trim_chars(&chars_of(source[i].as_str()));
        let ghost before = out@.map_values(|s: String| s@);
        proof {
            let prefix = chosen.subrange(0, i as int + 1);
            assert(prefix.drop_last() =~= chosen.subrange(0, i as int));
            assert(prefix.last() == source@[i as int]@);
        }
        if t.len() > 0 {
            let item = string_of(&t);
            out.push(item);
            assert(out@.map_values(|s: String| s@) =~= before.push(t@));
        }
        i += 1;
    }
    assert(chosen.subrange(0, source.len() as int) =~= chosen);
    if out.len() == 0 {
        return Err(
            "no translation targets configured; pass one or more --to <lang> flags or set translate.default_targets in lilaccaps.toml".to_owned(),
        );
    }
    Ok(out)
}

/// `<stem>.multilang.srt` (appending) or `<stem>.translated.srt` beside the input.
pub open spec fn translated_output_path(input: Seq<char>, append: bool) -> Seq<char> {
    let stem = match path_file_stem(input) {
        Some(s) => s,
        None => "subtitles"@,
    };
    path_with_file_name(
        input,
        stem + "."@ + (if append {
            "multilang"@
        } else {
            "translated"@
        }) + ".srt"@,
    )
}

pub fn default_output_path(input: &str, append: bool) -> (r: String)
    ensures
        r@ == translated_output_path(input@, append),
{
    let stem = match file_stem_of(input) {
        Some(s) => s,
        None => "subtitles".to_owned(),
    };
    let suffix = if append {
        "multilang"
    } else {
        "translated"
    };
    let name = concat3(stem.as_str(), ".", suffix);
    let name = crate::text::concat_str(name.as_str(), ".srt");
    with_file_name(input, name.as_str())
}

/// The review report written beside a translation: `<output file name>.review.json`.
pub open spec fn review_report_path(output: Seq<char>, file_name: Seq<char>) -> Seq<char> {
    path_with_file_name(output, file_name + ".review.json"@)
}

pub fn review_report_for(output: &str) -> (r: Result<String, String>)
    ensures
        match crate::paths::path_file_name(output@) {
            Some(n) => r matches Ok(p) && p@ == review_report_path(output@, n),
            None => r matches Err(e) && e@ == "translation output needs a filename"@,
        },
{
    match crate::paths::file_name_of(output) {
        Some(n) => {
            let name = crate::text::concat_str(n.as_str(), ".review.json");
            Ok(with_file_name(output, name.as_str()))
        },
        None => Err("translation output needs a filename".to_owned()),
    }
}

/// The first position in `lines` labelled `role`.
pub open spec fn label_position(lines: Seq<(Seq<char>, Seq<char>)>, role: Seq<char>) -> Option<int>
    decreases lines.len(),
{
    if lines.len() == 0 {
        None
    } else if lines[0].0 == role {
        Some(0)
    } else {
        match label_position(lines.drop_first(), role) {
            Some(k) => Some(k + 1),
            None => None,
        }
    }
}

/// Lines taken in `order`, each role's first unused line, then the rest in order.
pub open spec fn reordered(order: Seq<Seq<char>>, lines: Seq<(Seq<char>, Seq<char>)>) -> Seq<Seq<char>>
    decreases order.len(),
{
    if order.len() == 0 {
        lines.map_values(|l: (Seq<char>, Seq<char>)| l.1)
    } else {
        match label_position(lines, order[0]) {
            Some(k) => seq![lines[k].1] + reordered(order.drop_first(), lines.remove(k)),
            None => reordered(order.drop_first(), lines),
        }
    }
}

pub open spec fn labelled(v: Seq<(String, String)>) -> Seq<(Seq<char>, Seq<char>)> {
    v.map_values(|l: (String, String)| (l.0@, l.1@))
}

/// Orders the lines of one cue by their labels, following `line_order`.
pub fn reorder_labeled_lines(line_order: &[String], labeled_lines: Vec<(String, String)>) -> (r: Vec<String>)
    ensures
        r@.map_values(|s: String| s@) == reordered(
            line_order@.map_values(|s: String| s@),
            labelled(labeled_lines@),
        ),
{
    let ghost order = line_order@.map_values(|s: String| s@);
    let mut ordered: Vec<String> = Vec::new();
    let mut remaining = labeled_lines;
    let mut i: usize = 0;
    assert(order.subrange(0, order.len() as int) =~= order);
    while i < line_order.len()
        invariant
            i <= line_order.len(),
            order == line_order@.map_values(|s: String| s@),
            ordered@.map_values(|s: String| s@) + reordered(
                order.subrange(i as int, order.len() as int),
                labelled(remaining@),
            ) == reordered(order, labelled(labeled_lines@)),
        decreases line_order.len() - i,
    {
        let ghost rest_order = order.subrange(i as int, order.len() as int);
        assert(rest_order[0] == line_order@[i as int]@);
        assert(rest_order.drop_first() =~= order.subrange(i + 1, order.len() as int));
        let mut k: usize = 0;
        assert(labelled(remaining@).subrange(0, remaining.len() as int) =~= labelled(remaining@));
        while k < remaining.len() && !str_eq(remaining[k].0.as_str(), line_order[i].as_str())
            invariant
                k <= remaining.len(),
                i < line_order.len(),
                label_position(labelled(remaining@), line_order@[i as int]@) == match label_position(
                    labelled(remaining@).subrange(k as int, remaining.len() as int),
                    line_order@[i as int]@,
                ) {
                    Some(j) => Some(j + k),
                    None => None,
                },
            decreases remaining.len() - k,
        {
            let ghost sub = labelled(remaining@).subrange(k as int, remaining.len() as int);
            assert(sub[0] == labelled(remaining@)[k as int]);
            assert(sub.drop_first() =~= labelled(remaining@).subrange(k + 1, remaining.len() as int));
            k += 1;
        }
        let found = k < remaining.len();
        proof {
            if found {
                let sub = labelled(remaining@).subrange(k as int, remaining.len() as int);
                assert(sub[0] == labelled(remaining@)[k as int]);
            } else {
                assert(labelled(remaining@).subrange(k as int, remaining.len() as int) =~= Seq::<(Seq<char>, Seq<char>)>::empty());
            }
        }
        let ghost before = ordered@.map_values(|s: String| s@);
        let ghost lab = labelled(remaining@);
        if found {
            let taken = remaining.remove(k);
            assert(labelled(remaining@) =~= lab.remove(k as int));
            ordered.push(taken.1);
            assert(ordered@.map_values(|s: String| s@) =~= before.push(lab[k as int].1));
        } else {
            assert(labelled(remaining@).subrange(remaining.len() as int, remaining.len() as int) =~= Seq::<(Seq<char>, Seq<char>)>::empty());
        }
        i += 1;
    }
    let ghost before = ordered@.map_values(|s: String| s@);
    let ghost lab = labelled(remaining@);
    let mut j: usize = 0;
    while j < remaining.len()
        invariant
            j <= remaining.len(),
            lab == labelled(remaining@),
            ordered@.map_values(|s: String| s@) == before + lab.map_values(|l: (Seq<char>, Seq<char>)| l.1).subrange(0, j as int),
        decreases remaining.len() - j,
    {
        let ghost mid = ordered@.map_values(|s: String| s@);
        ordered.push(remaining[j].1.clone());
        assert(ordered@.map_values(|s: String| s@) =~= mid.push(lab[j as int].1));
        j += 1;
        assert(lab.map_values(|l: (Seq<char>, Seq<char>)| l.1).subrange(0, j as int) =~= lab.map_values(|l: (Seq<char>, Seq<char>)| l.1).subrange(0, j - 1).push(lab[j - 1].1));
    }
    assert(lab.map_values(|l: (Seq<char>, Seq<char>)| l.1).subrange(0, remaining.len() as int) =~= lab.map_values(|l: (Seq<char>, Seq<char>)| l.1));
    assert(order.subrange(line_order.len() as int, order.len() as int) =~= Seq::<Seq<char>>::empty());
    ordered
}

} // verus!
