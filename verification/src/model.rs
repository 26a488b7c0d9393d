//! Whisper model files: their names, download addresses and install location.
use vstd::prelude::*;

use crate::config::{join_path, join_path_str, Config, ConfigPaths};
use crate::runtime::models_dir;
use crate::text::{concat3, concat_str, str_eq};

verus! {

broadcast use vstd::string::group_string_axioms;

pub const MODEL_BASE_URL: &'static str = "https://huggingface.co/ggerganov/whisper.cpp/resolve/main";

/// The ggml file of a supported whisper model id.
pub open spec fn model_file(id: Seq<char>) -> Option<Seq<char>> {
    if id == "tiny"@ {
        Some("ggml-tiny.bin"@)
    } else if id == "base"@ {
        Some("ggml-base.bin"@)
    } else if id == "small"@ {
        Some("ggml-small.bin"@)
    } else if id == "medium"@ {
        Some("ggml-medium.bin"@)
    } else if id == "tiny.en"@ {
        Some("ggml-tiny.en.bin"@)
    } else if id == "base.en"@ {
        Some("ggml-base.en.bin"@)
    } else if id == "small.en"@ {
        Some("ggml-small.en.bin"@)
    } else if id == "medium.en"@ {
        Some("ggml-medium.en.bin"@)
    } else {
        None
    }
}

pub fn model_file_name(model_id: &str) -> (r: Result<String, String>)
    ensures
        match model_file(model_id@) {
            Some(f) => r matches Ok(s) && s@ == f,
            None => r matches Err(e) && e@ == "unsupported whisper model id: "@ + model_id@,
        },
{
    let name = if str_eq(model_id, "tiny") {
        "ggml-tiny.bin"
    } else if str_eq(model_id, "base") {
        "ggml-base.bin"
    } else if str_eq(model_id, "small") {
        "ggml-small.bin"
    } else if str_eq(model_id, "medium") {
        "ggml-medium.bin"
    } else if str_eq(model_id, "tiny.en") {
        "ggml-tiny.en.bin"
    } else if str_eq(model_id, "base.en") {
        "ggml-base.en.bin"
    } else if str_eq(model_id, "small.en") {
        "ggml-small.en.bin"
    } else if str_eq(model_id, "medium.en") {
        "ggml-medium.en.bin"
    } else {
        return Err(concat_str("unsupported whisper model id: ", model_id));
    };
    Ok(name.to_owned())
}

/// Where a model is downloaded from.
pub fn model_url(model_id: &str) -> (r: Result<String, String>)
    ensures
        match model_file(model_id@) {
            Some(f) => r matches Ok(s) && s@ == MODEL_BASE_URL@ + "/"@ + f,
            None => r matches Err(e) && e@ == "unsupported whisper model id: "@ + model_id@,
        },
{
    let file = model_file_name(model_id)?;
    Ok(concat3(MODEL_BASE_URL, "/", file.as_str()))
}

/// The model file to load: the configured path, or the model's file in the runtime's
/// `models` directory.
pub fn resolved_model_path(paths: &ConfigPaths, config: &Config) -> (r: Result<String, String>)
    ensures
        match config.transcribe.model.path {
            Some(p) => r matches Ok(s) && s@ == p@,
            None => match model_file(config.transcribe.model.id@) {
                Some(f) => r matches Ok(s) && s@ == join_path(
                    join_path(paths.runtime_home@, "models"@),
                    f,
                ),
                None => r matches Err(e) && e@ == "unsupported whisper model id: "@
                    + config.transcribe.model.id@,
            },
        },
{
    if let Some(path) = &config.transcribe.model.path {
        return Ok(path.clone());
    }
    let file = model_file_name(config.transcribe.model.id.as_str())?;
    let dir = models_dir(paths.runtime_home.as_str());
    Ok(join_path_str(dir.as_str(), file.as_str()))
}

} // verus!
