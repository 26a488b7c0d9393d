//! Where the standalone caption pipeline writes, and what it reports.
use vstd::prelude::*;

use crate::config::{join_path, join_path_str};
use crate::paths::{file_stem_of, path_file_stem, path_with_file_name, with_file_name};
use crate::runtime::tmp_dir;
use crate::text::{chars_of, concat_str, string_of};

verus! {

broadcast use vstd::string::group_string_axioms;

/// What the caption pipeline produced.
#[derive(Debug, Clone)]
pub struct CaptionsOutput {
    pub input: String,
    pub output: String,
    pub model_path: String,
    pub status: String,
}

pub open spec fn stem_or(path: Seq<char>, default: Seq<char>) -> Seq<char> {
    match path_file_stem(path) {
        Some(s) => s,
        None => default,
    }
}

/// The default captions file: beside the input, named after it, with `.srt`.
pub fn default_output_path(input: &str) -> (r: String)
    ensures
        r@ == path_with_file_name(input@, stem_or(input@, "captions"@) + ".srt"@),
{
    let stem = match file_stem_of(input) {
        Some(s) => s,
        None => string_of(&chars_of("captions")),
    };
    let name = concat_str(stem.as_str(), ".srt");
    with_file_name(input, name.as_str())
}

/// Where the extracted mono 16 kHz audio goes: in the runtime's temp directory.
pub fn temp_audio_path(runtime_home: &str, input: &str) -> (r: String)
    ensures
        r@ == join_path(join_path(runtime_home@, "tmp"@), stem_or(input@, "input"@) + ".mono16k.wav"@),
{
    let stem = match file_stem_of(input) {
        Some(s) => s,
        None => string_of(&chars_of("input")),
    };
    let name = concat_str(stem.as_str(), ".mono16k.wav");
    let dir = tmp_dir(runtime_home);
    join_path_str(dir.as_str(), name.as_str())
}

/// The report of a finished run.
pub fn captions_output(input: String, output: String, model_path: String) -> (r: CaptionsOutput)
    ensures
        r.input@ == input@,
        r.output@ == output@,
        r.model_path@ == model_path@,
        r.status@ == "generated"@,
{
    CaptionsOutput { input, output, model_path, status: string_of(&chars_of("generated")) }
}

} // verus!
