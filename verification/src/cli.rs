//! The command-line arguments of each subcommand, as plain values.
use vstd::prelude::*;

use crate::text::str_eq;

verus! {

broadcast use vstd::string::group_string_axioms;

#[derive(Debug, Clone)]
pub struct DoctorArgs {
    pub config_path: Option<String>,
    pub fix: bool,
}

#[derive(Debug, Clone)]
pub struct InstallArgs {
    pub config_path: Option<String>,
    pub fix: bool,
}

#[derive(Debug, Clone)]
pub struct UpdateArgs {
    pub config_path: Option<String>,
    pub skip_dependencies: bool,
}

#[derive(Debug, Clone)]
pub struct StatusArgs {
    pub config_path: Option<String>,
    pub json: bool,
}

#[derive(Debug, Clone)]
pub struct UninstallArgs {
    pub config_path: Option<String>,
    pub yes: bool,
}

#[derive(Debug, Clone)]
pub struct TranscribeArgs {
    pub input: String,
    pub config_path: Option<String>,
    pub output: Option<String>,
    pub lang: Option<String>,
    pub engine: Option<String>,
    pub model: Option<String>,
    pub cleanup: Option<String>,
}

#[derive(Debug, Clone)]
pub struct BurninArgs {
    pub video: String,
    pub config_path: Option<String>,
    pub subs: String,
    pub output: Option<String>,
    pub font: Option<String>,
    pub colour: Option<String>,
    pub size: Option<u32>,
    pub outline: bool,
    pub no_outline: bool,
    pub outline_colour: Option<String>,
    pub outline_width: Option<u32>,
}

#[derive(Debug, Clone)]
pub struct TranslateArgs {
    pub input: String,
    pub config_path: Option<String>,
    pub output: Option<String>,
    pub to: Vec<String>,
    pub append: Option<bool>,
}

#[derive(Debug, Clone)]
pub struct WatermarkPresetListArgs {
    pub config_path: Option<String>,
    pub json: bool,
}

#[derive(Debug, Clone)]
pub struct WatermarkPresetShowArgs {
    pub name: String,
    pub config_path: Option<String>,
    pub json: bool,
}

#[derive(Debug, Clone)]
pub struct WatermarkPresetRemoveArgs {
    pub name: String,
    pub config_path: Option<String>,
}

#[derive(Debug, Clone)]
pub struct WorkflowArgs {
    pub command: WorkflowCommand,
}

#[derive(Debug, Clone)]
pub enum WorkflowCommand {
    Start(WorkflowStartArgs),
    Resume(WorkflowProjectArgs),
    Status(WorkflowStatusArgs),
    Accept(WorkflowAcceptArgs),
    Render(WorkflowRenderArgs),
}

#[derive(Debug, Clone)]
pub struct WorkflowStartArgs {
    pub video: String,
    pub project: Option<String>,
    pub config_path: Option<String>,
    pub subs: Option<String>,
    pub to: Option<String>,
    pub lang: Option<String>,
    pub engine: Option<String>,
    pub model: Option<String>,
    pub context_file: Option<String>,
    pub watermark: Option<String>,
}

#[derive(Debug, Clone)]
pub struct WorkflowProjectArgs {
    pub project: String,
    pub review_source: bool,
    pub retranslate: bool,
}

#[derive(Debug, Clone)]
pub struct WorkflowStatusArgs {
    pub project: String,
    pub json: bool,
}

#[derive(Debug, Clone)]
pub struct WorkflowAcceptArgs {
    pub project: String,
    pub note: String,
}

#[derive(Debug, Clone)]
pub struct WorkflowRenderArgs {
    pub project: String,
    pub output: Option<String>,
    pub font: Option<String>,
    pub size: Option<u32>,
}

/// The whole command line is the program name and `--version` or `-V`.
pub open spec fn root_version_request(args: Seq<Seq<char>>) -> bool {
    args.len() == 2 && (args[1] == "--version"@ || args[1] == "-V"@)
}

/// Whether the arguments ask only for the version, which is answered before parsing.
pub fn is_root_version_request(args: &[String]) -> (r: bool)
    ensures
        r == root_version_request(args@.map_values(|s: String| s@)),
{
    if args.len() != 2 {
        return false;
    }
    assert(args@.map_values(|s: String| s@)[1] == args@[1]@);
    str_eq(args[1].as_str(), "--version") || str_eq(args[1].as_str(), "-V")
}

} // verus!
