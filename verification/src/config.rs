//! The settings file's model: every section with its defaults, the migration of
//! managed defaults, home-relative paths, and the validation of transcription settings.
use vstd::prelude::*;

use crate::release::default_github_repo;
use crate::text::{
    chars_of, concat3, has_prefix, is_blank, opt_str, opt_string, str_eq, string_of,
    strip_prefix_chars, trim,
};

verus! {

broadcast use vstd::string::group_string_axioms;

pub const DEFAULT_RUNTIME_HOME: &'static str = "~/.lilac/lilaccaps";

pub const CONFIG_FILE_NAME: &'static str = "lilaccaps.toml";

pub const LEGACY_TRANSLATE_MODEL: &'static str = "gemini-3.1-flash-lite-preview";

pub const DEFAULT_TRANSLATE_MODEL: &'static str = "gemini-3.1-flash-lite";

/// Where the settings file and the runtime live.
#[derive(Debug, Clone)]
pub struct ConfigPaths {
    pub config_path: String,
    pub runtime_home: String,
}

/// Settings read from disk, with the paths they came from.
#[derive(Debug, Clone)]
pub struct LoadedConfig {
    pub paths: ConfigPaths,
    pub config: Config,
    pub created: bool,
}

#[derive(Debug, Clone)]
pub struct Config {
    pub runtime: RuntimeConfig,
    pub agent: AgentConfig,
    pub release: ReleaseConfig,
    pub transcribe: TranscribeConfig,
    pub burnin: BurninConfig,
    pub translate: TranslateConfig,
}

#[derive(Debug, Clone)]
pub struct RuntimeConfig {
    pub home: String,
}

#[derive(Debug, Clone)]
pub struct AgentConfig {
    pub skill_path: String,
}

#[derive(Debug, Clone)]
pub struct ReleaseConfig {
    pub github_repo: Option<String>,
}

#[derive(Debug, Clone)]
pub struct TranscribeConfig {
    pub engine: TranscribeEngine,
    pub language: String,
    pub segmentation: TranscribeSegmentationConfig,
    pub cues: TranscribeCueConfig,
    pub cleanup: TranscribeCleanupConfig,
    pub model: ModelConfig,
}

/// The speech recogniser.
#[derive(Debug, Clone, Copy, PartialEq, Eq, Structural)]
pub enum TranscribeEngine {
    WhisperRs,
    FasterWhisper,
}

#[derive(Debug, Clone)]
pub struct TranscribeSegmentationConfig {
    pub mode: TranscribeSegmentationMode,
    pub chunk_seconds: u64,
    pub overlap_seconds: u64,
    pub min_speech_ms: u64,
    pub min_silence_ms: u64,
    pub padding_ms: u64,
    pub max_window_seconds: u64,
}

/// How audio is cut into windows: around detected speech, or at fixed intervals.
#[derive(Debug, Clone, Copy, PartialEq, Eq, Structural)]
pub enum TranscribeSegmentationMode {
    Speech,
    Fixed,
}

#[derive(Debug, Clone)]
pub struct TranscribeCueConfig {
    pub min_duration_ms: u64,
    pub max_duration_ms: u64,
    pub end_padding_ms: u64,
    pub pause_split_ms: u64,
    pub max_chars_per_line: usize,
    pub max_cjk_chars_per_line: usize,
    pub max_lines: usize,
}

#[derive(Debug, Clone)]
pub struct TranscribeCleanupConfig {
    pub enabled: bool,
    pub command: String,
    pub model: String,
    pub reasoning_effort: String,
}

#[derive(Debug, Clone)]
pub struct ModelConfig {
    pub id: String,
    pub path: Option<String>,
}

/// Caption styling; `styles` holds per-role overrides keyed by role name.
#[derive(Debug, Clone)]
pub struct BurninConfig {
    pub font: String,
    pub colour: String,
    pub size: u32,
    pub line_spacing: u32,
    pub advanced_styling: bool,
    pub outline: BurninOutlineConfig,
    pub styles: Vec<(String, BurninLineStyleConfig)>,
}

#[derive(Debug, Clone)]
pub struct TranslateConfig {
    pub model: String,
    pub append: bool,
    pub default_targets: Vec<String>,
    pub line_order: Vec<String>,
    pub command: String,
    pub reasoning_effort: String,
    pub review_model: String,
    pub review_reasoning_effort: String,
}

#[derive(Debug, Clone)]
pub struct BurninLineStyleConfig {
    pub font: Option<String>,
    pub colour: Option<String>,
    pub size: Option<u32>,
}

#[derive(Debug, Clone)]
pub struct BurninOutlineConfig {
    pub enabled: bool,
    pub colour: String,
    pub width: u32,
}

impl Default for TranscribeEngine {
    fn default() -> (r: Self)
        ensures
            r == TranscribeEngine::WhisperRs,
    {
        TranscribeEngine::WhisperRs
    }
}

impl Default for TranscribeSegmentationMode {
    fn default() -> (r: Self)
        ensures
            r == TranscribeSegmentationMode::Speech,
    {
        TranscribeSegmentationMode::Speech
    }
}

impl Default for BurninLineStyleConfig {
    fn default() -> (r: Self)
        ensures
            r.font is None,
            r.colour is None,
            r.size is None,
    {
        BurninLineStyleConfig { font: None, colour: None, size: None }
    }
}

// ---------------------------------------------------------------------------
// Defaults.
// ---------------------------------------------------------------------------

pub fn default_transcribe_language() -> (r: String)
    ensures
        r@ == "auto"@,
{
    "auto".to_owned()
}

pub fn default_transcribe_chunk_seconds() -> (r: u64)
    ensures
        r == 30,
{
    30
}

pub fn default_transcribe_overlap_seconds() -> (r: u64)
    ensures
        r == 2,
{
    2
}

pub fn default_transcribe_min_speech_ms() -> (r: u64)
    ensures
        r == 400,
{
    400
}

pub fn default_transcribe_min_silence_ms() -> (r: u64)
    ensures
        r == 350,
{
    350
}

pub fn default_transcribe_padding_ms() -> (r: u64)
    ensures
        r == 300,
{
    300
}

pub fn default_transcribe_max_window_seconds() -> (r: u64)
    ensures
        r == 30,
{
    30
}

pub fn default_transcribe_min_duration_ms() -> (r: u64)
    ensures
        r == 800,
{
    800
}

pub fn default_transcribe_max_duration_ms() -> (r: u64)
    ensures
        r == 6000,
{
    6_000
}

pub fn default_transcribe_end_padding_ms() -> (r: u64)
    ensures
        r == 150,
{
    150
}

pub fn default_transcribe_pause_split_ms() -> (r: u64)
    ensures
        r == 500,
{
    500
}

pub fn default_transcribe_max_chars_per_line() -> (r: usize)
    ensures
        r == 42,
{
    42
}

pub fn default_transcribe_max_cjk_chars_per_line() -> (r: usize)
    ensures
        r == 18,
{
    18
}

pub fn default_transcribe_max_lines() -> (r: usize)
    ensures
        r == 2,
{
    2
}

pub fn default_transcribe_cleanup_command() -> (r: String)
    ensures
        r@ == "codex"@,
{
    "codex".to_owned()
}

pub fn default_transcribe_cleanup_model() -> (r: String)
    ensures
        r@ == "gpt-5.6-terra"@,
{
    "gpt-5.6-terra".to_owned()
}

pub fn default_burnin_font() -> (r: String)
    ensures
        r@ == "auto"@,
{
    "auto".to_owned()
}

pub fn default_burnin_colour() -> (r: String)
    ensures
        r@ == "auto"@,
{
    "auto".to_owned()
}

pub fn default_burnin_size() -> (r: u32)
    ensures
        r == 0,
{
    0
}

pub fn default_burnin_line_spacing() -> (r: u32)
    ensures
        r == 0,
{
    0
}

pub fn default_burnin_advanced_styling() -> (r: bool)
    ensures
        r,
{
    true
}

pub fn default_burnin_outline_enabled() -> (r: bool)
    ensures
        r,
{
    true
}

pub fn default_burnin_outline_colour() -> (r: String)
    ensures
        r@ == "black"@,
{
    "black".to_owned()
}

pub fn default_burnin_outline_width() -> (r: u32)
    ensures
        r == 2,
{
    2
}

pub fn default_translate_model() -> (r: String)
    ensures
        r@ == DEFAULT_TRANSLATE_MODEL@,
{
    DEFAULT_TRANSLATE_MODEL.to_owned()
}

pub fn default_translate_append() -> (r: bool)
    ensures
        r,
{
    true
}

pub fn default_translate_command() -> (r: String)
    ensures
        r@ == "codex"@,
{
    "codex".to_owned()
}

pub fn default_translate_reasoning_effort() -> (r: String)
    ensures
        r@ == "medium"@,
{
    "medium".to_owned()
}

pub fn default_translate_review_model() -> (r: String)
    ensures
        r@ == "gpt-5.6-terra"@,
{
    "gpt-5.6-terra".to_owned()
}

impl Default for BurninOutlineConfig {
    fn default() -> (r: Self)
        ensures
            r.enabled,
            r.colour@ == "black"@,
            r.width == 2,
    {
        BurninOutlineConfig {
            enabled: default_burnin_outline_enabled(),
            colour: default_burnin_outline_colour(),
            width: default_burnin_outline_width(),
        }
    }
}

impl Default for BurninConfig {
    fn default() -> (r: Self)
        ensures
            r.font@ == "auto"@,
            r.colour@ == "auto"@,
            r.size == 0,
            r.line_spacing == 0,
            r.advanced_styling,
            r.outline.enabled,
            r.outline.colour@ == "black"@,
            r.outline.width == 2,
            r.styles@.len() == 0,
    {
        BurninConfig {
            font: default_burnin_font(),
            colour: default_burnin_colour(),
            size: default_burnin_size(),
            line_spacing: default_burnin_line_spacing(),
            advanced_styling: default_burnin_advanced_styling(),
            outline: BurninOutlineConfig::default(),
            styles: Vec::new(),
        }
    }
}

impl Default for TranscribeSegmentationConfig {
    fn default() -> (r: Self)
        ensures
            r.mode == TranscribeSegmentationMode::Speech,
            r.chunk_seconds == 30,
            r.overlap_seconds == 2,
            r.min_speech_ms == 400,
            r.min_silence_ms == 350,
            r.padding_ms == 300,
            r.max_window_seconds == 30,
    {
        TranscribeSegmentationConfig {
            mode: TranscribeSegmentationMode::default(),
            chunk_seconds: default_transcribe_chunk_seconds(),
            overlap_seconds: default_transcribe_overlap_seconds(),
            min_speech_ms: default_transcribe_min_speech_ms(),
            min_silence_ms: default_transcribe_min_silence_ms(),
            padding_ms: default_transcribe_padding_ms(),
            max_window_seconds: default_transcribe_max_window_seconds(),
        }
    }
}

impl Default for TranscribeCueConfig {
    fn default() -> (r: Self)
        ensures
            r.min_duration_ms == 800,
            r.max_duration_ms == 6000,
            r.end_padding_ms == 150,
            r.pause_split_ms == 500,
            r.max_chars_per_line == 42,
            r.max_cjk_chars_per_line == 18,
            r.max_lines == 2,
    {
        TranscribeCueConfig {
            min_duration_ms: default_transcribe_min_duration_ms(),
            max_duration_ms: default_transcribe_max_duration_ms(),
            end_padding_ms: default_transcribe_end_padding_ms(),
            pause_split_ms: default_transcribe_pause_split_ms(),
            max_chars_per_line: default_transcribe_max_chars_per_line(),
            max_cjk_chars_per_line: default_transcribe_max_cjk_chars_per_line(),
            max_lines: default_transcribe_max_lines(),
        }
    }
}

impl Default for TranscribeCleanupConfig {
    fn default() -> (r: Self)
        ensures
            !r.enabled,
            r.command@ == "codex"@,
            r.model@ == "gpt-5.6-terra"@,
            r.reasoning_effort@ == "medium"@,
    {
        TranscribeCleanupConfig {
            enabled: false,
            command: default_transcribe_cleanup_command(),
            model: default_transcribe_cleanup_model(),
            reasoning_effort: default_translate_reasoning_effort(),
        }
    }
}

impl Default for TranslateConfig {
    fn default() -> (r: Self)
        ensures
            r.model@ == DEFAULT_TRANSLATE_MODEL@,
            r.append,
            r.default_targets@.len() == 0,
            r.line_order@.len() == 0,
            r.command@ == "codex"@,
            r.reasoning_effort@ == "medium"@,
            r.review_model@ == "gpt-5.6-terra"@,
            r.review_reasoning_effort@ == "medium"@,
    {
        TranslateConfig {
            model: default_translate_model(),
            append: default_translate_append(),
            default_targets: Vec::new(),
            line_order: Vec::new(),
            command: default_translate_command(),
            reasoning_effort: default_translate_reasoning_effort(),
            review_model: default_translate_review_model(),
            review_reasoning_effort: default_translate_reasoning_effort(),
        }
    }
}

/// The settings a fresh installation starts from: the given runtime home and skill
/// path, the package's own release repository (never the remote of whatever checkout
/// the command runs in), and every other value at its default.
pub open spec fn default_settings(c: Config, runtime_home: Seq<char>, skill_path: Seq<char>) -> bool {
    &&& c.runtime.home@ == runtime_home
    &&& c.agent.skill_path@ == skill_path
    &&& c.release.github_repo is Some
    &&& c.release.github_repo.unwrap()@ == default_github_repo_value()
    &&& c.transcribe.engine == TranscribeEngine::WhisperRs
    &&& c.transcribe.language@ == "auto"@
    &&& c.transcribe.model.id@ == "base"@
    &&& c.transcribe.model.path is None
    &&& c.transcribe.segmentation.mode == TranscribeSegmentationMode::Speech
    &&& c.transcribe.segmentation.chunk_seconds == 30
    &&& c.transcribe.segmentation.overlap_seconds == 2
    &&& c.transcribe.segmentation.min_speech_ms == 400
    &&& c.transcribe.segmentation.min_silence_ms == 350
    &&& c.transcribe.segmentation.padding_ms == 300
    &&& c.transcribe.segmentation.max_window_seconds == 30
    &&& c.transcribe.cues.min_duration_ms == 800
    &&& c.transcribe.cues.max_duration_ms == 6000
    &&& c.transcribe.cues.end_padding_ms == 150
    &&& c.transcribe.cues.pause_split_ms == 500
    &&& c.transcribe.cues.max_chars_per_line == 42
    &&& c.transcribe.cues.max_cjk_chars_per_line == 18
    &&& c.transcribe.cues.max_lines == 2
    &&& !c.transcribe.cleanup.enabled
    &&& c.transcribe.cleanup.command@ == "codex"@
    &&& c.transcribe.cleanup.model@ == "gpt-5.6-terra"@
    &&& c.burnin.font@ == "auto"@
    &&& c.burnin.colour@ == "auto"@
    &&& c.burnin.size == 0
    &&& c.burnin.line_spacing == 0
    &&& c.burnin.advanced_styling
    &&& c.burnin.outline.enabled
    &&& c.burnin.outline.colour@ == "black"@
    &&& c.burnin.outline.width == 2
    &&& c.burnin.styles@.len() == 0
    &&& c.translate.model@ == DEFAULT_TRANSLATE_MODEL@
    &&& c.translate.append
    &&& c.translate.default_targets@.len() == 0
    &&& c.translate.line_order@.len() == 0
    &&& c.translate.command@ == "codex"@
    &&& c.translate.reasoning_effort@ == "medium"@
    &&& c.translate.review_model@ == "gpt-5.6-terra"@
    &&& c.translate.review_reasoning_effort@ == "medium"@
    &&& c.transcribe.cleanup.reasoning_effort@ == "medium"@
}

pub fn default_config_for(runtime_home: String, skill_path: String) -> (r: Config)
    ensures
        default_settings(r, runtime_home@, skill_path@),
{
    let github_repo = default_github_repo();
    Config {
        runtime: RuntimeConfig { home: runtime_home },
        agent: AgentConfig { skill_path },
        release: ReleaseConfig { github_repo: Some(github_repo) },
        transcribe: TranscribeConfig {
            engine: TranscribeEngine::default(),
            language: default_transcribe_language(),
            segmentation: TranscribeSegmentationConfig::default(),
            cues: TranscribeCueConfig::default(),
            cleanup: TranscribeCleanupConfig::default(),
            model: ModelConfig { id: "base".to_owned(), path: None },
        },
        burnin: BurninConfig::default(),
        translate: TranslateConfig::default(),
    }
}

/// The repository that `default_github_repo` returns.
pub open spec fn default_github_repo_value() -> Seq<char> {
    match crate::release::repo_result(crate::release::PACKAGE_REPOSITORY@) {
        Ok(s) => s,
        Err(_) => "zhuisDEV/lilaccaps"@,
    }
}

// ---------------------------------------------------------------------------
// Paths.
// ---------------------------------------------------------------------------

/// `PathBuf::join` on text: an absolute `rest` replaces `base`; otherwise the two
/// are joined with one separator.
pub open spec fn join_path(base: Seq<char>, rest: Seq<char>) -> Seq<char> {
    if rest.len() > 0 && rest[0] == '/' {
        rest
    } else if base.len() == 0 || base.last() == '/' {
        base + rest
    } else {
        base + seq!['/'] + rest
    }
}

pub fn join_path_str(base: &str, rest: &str) -> (r: String)
    ensures
        r@ == join_path(base@, rest@),
{
    let b = chars_of(base);
    let t = chars_of(rest);
    proof {
        reveal_strlit("/");
        assert("/"@ =~= seq!['/']);
    }
    if t.len() > 0 && t[0] == '/' {
        string_of(&t)
    } else if b.len() == 0 || b[b.len() - 1] == '/' {
        crate::text::concat_str(base, rest)
    } else {
        concat3(base, "/", rest)
    }
}

/// The home directory, when the platform reports one. It depends on the
/// environment, so nothing is stated of it.
#[verifier::external_body]
fn home_dir() -> (r: Option<String>) {
    dirs::home_dir().map(|p| p.to_string_lossy().into_owned())
}

/// `path` with a leading `~` replaced by `home`; an error when that is needed and
/// no home directory is known.
pub open spec fn expanded(path: Seq<char>, home: Option<Seq<char>>) -> Result<Seq<char>, Seq<char>> {
    if has_prefix(path, "~/"@) || path == "~"@ {
        match home {
            Some(h) => if path == "~"@ {
                Ok(h)
            } else {
                Ok(join_path(h, path.subrange(2, path.len() as int)))
            },
            None => Err("failed to detect home directory"@),
        }
    } else {
        Ok(path)
    }
}

/// Expands `~` and `~/...` against `home`.
pub fn expand_home_with(path: &str, home: Option<&str>) -> (r: Result<String, String>)
    ensures
        match r {
            Ok(s) => expanded(path@, opt_str(home)) == Ok::<Seq<char>, Seq<char>>(s@),
            Err(e) => expanded(path@, opt_str(home)) == Err::<Seq<char>, Seq<char>>(e@),
        },
{
    let chars = chars_of(path);
    let tilde_slash = chars_of("~/");
    proof {
        reveal_strlit("~/");
        reveal_strlit("~");
    }
    if let Some(stripped) = strip_prefix_chars(&chars, &tilde_slash) {
        return match home {
            Some(h) => {
                assert(path@ != "~"@);
                Ok(join_path_str(h, &string_of(&stripped)))
            },
            None => Err("failed to detect home directory".to_owned()),
        };
    }
    if str_eq(path, "~") {
        return match home {
            Some(h) => Ok(h.to_owned()),
            None => Err("failed to detect home directory".to_owned()),
        };
    }
    Ok(path.to_owned())
}

/// Expands `~` and `~/...` against the current user's home directory. Paths without
/// a leading `~` come back unchanged; the only error is a missing home directory.
pub fn expand_home(path: &str) -> (r: Result<String, String>)
    ensures
        !(has_prefix(path@, "~/"@) || path@ == "~"@) ==> (r matches Ok(s) && s@ == path@),
        r matches Err(e) ==> e@ == "failed to detect home directory"@,
        r matches Ok(s) ==> exists|h: Seq<char>| expanded(path@, Some(h)) == Ok::<Seq<char>, Seq<char>>(s@),
{
    let home = home_dir();
    match home {
        Some(h) => {
            let r = expand_home_with(path, Some(h.as_str()));
            proof {
                if r is Ok {
                    assert(expanded(path@, Some(h@)) == Ok::<Seq<char>, Seq<char>>(r->Ok_0@));
                }
            }
            r
        },
        None => expand_home_with(path, None),
    }
}

/// The runtime directory: `~/.lilac/lilaccaps` under the user's home.
pub fn default_runtime_home() -> (r: Result<String, String>)
    ensures
        r matches Err(e) ==> e@ == "failed to detect home directory"@,
        r matches Ok(s) ==> exists|h: Seq<char>|
            expanded(DEFAULT_RUNTIME_HOME@, Some(h)) == Ok::<Seq<char>, Seq<char>>(s@),
{
    proof {
        reveal_strlit("~/.lilac/lilaccaps");
        reveal_strlit("~/");
        assert(has_prefix(DEFAULT_RUNTIME_HOME@, "~/"@)) by {
            assert(DEFAULT_RUNTIME_HOME@.subrange(0, 2) =~= "~/"@);
        }
    }
    expand_home(DEFAULT_RUNTIME_HOME)
}

/// The settings file inside the runtime directory.
pub fn default_config_path() -> (r: Result<String, String>)
    ensures
        r matches Err(e) ==> e@ == "failed to detect home directory"@,
        r matches Ok(p) ==> exists|h: Seq<char>, home: Seq<char>|
            expanded(DEFAULT_RUNTIME_HOME@, Some(h)) == Ok::<Seq<char>, Seq<char>>(home) && p@
                == join_path(home, CONFIG_FILE_NAME@),
{
    let home = default_runtime_home()?;
    let r = join_path_str(&home, CONFIG_FILE_NAME);
    proof {
        let h = choose|h: Seq<char>|
            expanded(DEFAULT_RUNTIME_HOME@, Some(h)) == Ok::<Seq<char>, Seq<char>>(home@);
        assert(expanded(DEFAULT_RUNTIME_HOME@, Some(h)) == Ok::<Seq<char>, Seq<char>>(home@)
            && r@ == join_path(home@, CONFIG_FILE_NAME@));
    }
    Ok(r)
}

/// The default settings for the current user: the runtime under their home directory.
pub fn default_config(skill_path: String) -> (r: Result<Config, String>)
    ensures
        r matches Err(e) ==> e@ == "failed to detect home directory"@,
        r matches Ok(c) ==> default_settings(c, c.runtime.home@, skill_path@)
            && exists|h: Seq<char>| expanded(DEFAULT_RUNTIME_HOME@, Some(h)) == Ok::<Seq<char>, Seq<char>>(c.runtime.home@),
{
    let runtime_home = default_runtime_home()?;
    Ok(default_config_for(runtime_home, skill_path))
}

// ---------------------------------------------------------------------------
// Migration.
// ---------------------------------------------------------------------------

/// Whether the settings still carry a managed default that has since changed.
pub open spec fn needs_migration(model: Seq<char>, repo: Option<Seq<char>>) -> bool {
    model == LEGACY_TRANSLATE_MODEL@ || match repo {
        Some(r) => trim(r).len() == 0,
        None => true,
    }
}

/// Replaces the retired translation model and a missing or blank release repository
/// with the current defaults; reports whether anything changed.
pub fn migrate_managed_defaults(config: &mut Config) -> (changed: bool)
    ensures
        changed == needs_migration(
            old(config).translate.model@,
            opt_string(old(config).release.github_repo),
        ),
        final(config).translate.model@ == (if old(config).translate.model@
            == LEGACY_TRANSLATE_MODEL@ {
            DEFAULT_TRANSLATE_MODEL@
        } else {
            old(config).translate.model@
        }),
        opt_string(final(config).release.github_repo) == (match old(
            config,
        ).release.github_repo {
            Some(r) => if trim(r@).len() == 0 {
                Some(default_github_repo_value())
            } else {
                Some(r@)
            },
            None => Some(default_github_repo_value()),
        }),
        final(config).runtime == old(config).runtime,
        final(config).agent == old(config).agent,
        final(config).transcribe == old(config).transcribe,
        final(config).burnin == old(config).burnin,
        final(config).translate.append == old(config).translate.append,
        final(config).translate.default_targets == old(config).translate.default_targets,
        final(config).translate.line_order == old(config).translate.line_order,
{
    let mut changed = false;
    if str_eq(config.translate.model.as_str(), LEGACY_TRANSLATE_MODEL) {
        config.translate.model = default_translate_model();
        changed = true;
    }
    let blank = match &config.release.github_repo {
        Some(repo) => is_blank(&chars_of(repo.as_str())),
        None => true,
    };
    if blank {
        config.release.github_repo = Some(default_github_repo());
        changed = true;
    }
    changed
}

// ---------------------------------------------------------------------------
// Validation of transcription settings.
// ---------------------------------------------------------------------------

/// How many components `std::path::Path` finds in a path.
pub uninterp spec fn path_component_count(path: Seq<char>) -> nat;

/// `Path::components().count()`: the number of components of a path.
#[verifier::external_body]
pub(crate) fn component_count_of(path: &str) -> (r: usize)
    ensures
        r == path_component_count(path@),
{
    std::path::Path::new(path).components().count()
}

pub open spec fn whisper_rs_model(id: Seq<char>) -> bool {
    id == "tiny"@ || id == "base"@ || id == "small"@ || id == "medium"@ || id == "tiny.en"@ || id
        == "base.en"@ || id == "small.en"@ || id == "medium.en"@
}

pub open spec fn faster_whisper_model(id: Seq<char>) -> bool {
    id == "large-v3"@ || id == "large-v3-turbo"@
}

/// The first problem with transcription settings, if there is one.
pub open spec fn transcribe_config_error(c: TranscribeConfig) -> Option<Seq<char>> {
    let s = c.segmentation;
    let q = c.cues;
    if c.engine == TranscribeEngine::WhisperRs && !whisper_rs_model(c.model.id@) {
        Some(
            "unsupported whisper-rs model id: "@ + c.model.id@
                + "; use tiny, base, small, medium, or an .en variant"@,
        )
    } else if c.engine == TranscribeEngine::FasterWhisper && c.model.path is None
        && !faster_whisper_model(c.model.id@) {
        Some(
            "unsupported faster-whisper model id: "@ + c.model.id@
                + "; use large-v3 or large-v3-turbo"@,
        )
    } else if c.cleanup.enabled && trim(c.cleanup.command@).len() == 0 {
        Some("transcribe.cleanup.command must not be empty when cleanup is enabled"@)
    } else if c.cleanup.enabled && path_component_count(c.cleanup.command@) > 1 && !has_prefix(
        c.cleanup.command@,
        "/"@,
    ) {
        Some(
            "transcribe.cleanup.command must be an executable name or absolute path: "@
                + c.cleanup.command@,
        )
    } else if c.cleanup.enabled && trim(c.cleanup.model@).len() == 0 {
        Some("transcribe.cleanup.model must not be empty when cleanup is enabled"@)
    } else if s.chunk_seconds == 0 {
        Some("transcribe.segmentation.chunk_seconds must be greater than zero"@)
    } else if s.overlap_seconds >= s.chunk_seconds {
        Some("transcribe.segmentation.overlap_seconds must be smaller than chunk_seconds"@)
    } else if s.max_window_seconds == 0 {
        Some("transcribe.segmentation.max_window_seconds must be greater than zero"@)
    } else if s.overlap_seconds >= s.max_window_seconds {
        Some("transcribe.segmentation.overlap_seconds must be smaller than max_window_seconds"@)
    } else if s.min_speech_ms == 0 || s.min_silence_ms == 0 {
        Some("transcribe speech and silence durations must be greater than zero"@)
    } else if q.min_duration_ms == 0 {
        Some("transcribe.cues.min_duration_ms must be greater than zero"@)
    } else if q.max_duration_ms < q.min_duration_ms {
        Some("transcribe.cues.max_duration_ms must be greater than or equal to min_duration_ms"@)
    } else if q.pause_split_ms == 0 {
        Some("transcribe.cues.pause_split_ms must be greater than zero"@)
    } else if q.max_chars_per_line == 0 || q.max_cjk_chars_per_line == 0 || q.max_lines == 0 {
        Some("transcribe cue line limits must be greater than zero"@)
    } else {
        None
    }
}

pub fn is_whisper_rs_model(id: &str) -> (r: bool)
    ensures
        r == whisper_rs_model(id@),
{
    str_eq(id, "tiny") || str_eq(id, "base") || str_eq(id, "small") || str_eq(id, "medium")
        || str_eq(id, "tiny.en") || str_eq(id, "base.en") || str_eq(id, "small.en") || str_eq(
        id,
        "medium.en",
    )
}

pub fn is_faster_whisper_model(id: &str) -> (r: bool)
    ensures
        r == faster_whisper_model(id@),
{
    str_eq(id, "large-v3") || str_eq(id, "large-v3-turbo")
}

/// Checks the engine's model, the cleanup command and the segmentation and cue limits.
pub fn validate_transcribe_config(config: &TranscribeConfig) -> (r: Result<(), String>)
    ensures
        r is Ok <==> transcribe_config_error(*config) is None,
        r matches Err(e) ==> transcribe_config_error(*config) == Some(e@),
{
    match config.engine {
        TranscribeEngine::WhisperRs => {
            if !is_whisper_rs_model(config.model.id.as_str()) {
                return Err(
                    concat3(
                        "unsupported whisper-rs model id: ",
                        config.model.id.as_str(),
                        "; use tiny, base, small, medium, or an .en variant",
                    ),
                );
            }
        },
        TranscribeEngine::FasterWhisper => {
            if config.model.path.is_none() && !is_faster_whisper_model(config.model.id.as_str()) {
                return Err(
                    concat3(
                        "unsupported faster-whisper model id: ",
                        config.model.id.as_str(),
                        "; use large-v3 or large-v3-turbo",
                    ),
                );
            }
        },
    }
    if config.cleanup.enabled {
        let command = chars_of(config.cleanup.command.as_str());
        if is_blank(&command) {
            return Err(
                "transcribe.cleanup.command must not be empty when cleanup is enabled".to_owned(),
            );
        }
        let absolute = crate::text::starts_with(&command, &chars_of("/"));
        if component_count_of(config.cleanup.command.as_str()) > 1 && !absolute {
            return Err(
                crate::text::concat_str(
                    "transcribe.cleanup.command must be an executable name or absolute path: ",
                    config.cleanup.command.as_str(),
                ),
            );
        }
        if is_blank(&chars_of(config.cleanup.model.as_str())) {
            return Err(
                "transcribe.cleanup.model must not be empty when cleanup is enabled".to_owned(),
            );
        }
    }
    let s = &config.segmentation;
    if s.chunk_seconds == 0 {
        return Err("transcribe.segmentation.chunk_seconds must be greater than zero".to_owned());
    }
    if s.overlap_seconds >= s.chunk_seconds {
        return Err(
            "transcribe.segmentation.overlap_seconds must be smaller than chunk_seconds".to_owned(),
        );
    }
    if s.max_window_seconds == 0 {
        return Err(
            "transcribe.segmentation.max_window_seconds must be greater than zero".to_owned(),
        );
    }
    if s.overlap_seconds >= s.max_window_seconds {
        return Err(
            "transcribe.segmentation.overlap_seconds must be smaller than max_window_seconds".to_owned(),
        );
    }
    if s.min_speech_ms == 0 || s.min_silence_ms == 0 {
        return Err("transcribe speech and silence durations must be greater than zero".to_owned());
    }
    let q = &config.cues;
    if q.min_duration_ms == 0 {
        return Err("transcribe.cues.min_duration_ms must be greater than zero".to_owned());
    }
    if q.max_duration_ms < q.min_duration_ms {
        return Err(
            "transcribe.cues.max_duration_ms must be greater than or equal to min_duration_ms".to_owned(),
        );
    }
    if q.pause_split_ms == 0 {
        return Err("transcribe.cues.pause_split_ms must be greater than zero".to_owned());
    }
    if q.max_chars_per_line == 0 || q.max_cjk_chars_per_line == 0 || q.max_lines == 0 {
        return Err("transcribe cue line limits must be greater than zero".to_owned());
    }
    Ok(())
}

// ---------------------------------------------------------------------------
// Resolving the paths of loaded settings.
// ---------------------------------------------------------------------------

/// A Unix absolute path.
pub open spec fn absolute(path: Seq<char>) -> bool {
    path.len() > 0 && path[0] == '/'
}

/// What resolving gives: the runtime home (from `LILACCAPS_HOME` when it is set), the
/// skill path and the model path, each with `~` expanded and required to be absolute,
/// then the transcription settings checked.
pub open spec fn resolved_paths(
    c: Config,
    lilaccaps_home: Option<Seq<char>>,
    home: Option<Seq<char>>,
) -> Result<(Seq<char>, Seq<char>, Option<Seq<char>>), Seq<char>> {
    let runtime = expanded(c.runtime.home@, home);
    let skill = expanded(c.agent.skill_path@, home);
    let model = match c.transcribe.model.path {
        Some(p) => Some(expanded(p@, home)),
        None => None,
    };
    let env = match lilaccaps_home {
        Some(h) => Some(expanded(h, home)),
        None => None,
    };
    if runtime is Err {
        Err(runtime->Err_0)
    } else if skill is Err {
        Err(skill->Err_0)
    } else if model is Some && model->Some_0 is Err {
        Err(model->Some_0->Err_0)
    } else if env is Some && env->Some_0 is Err {
        Err(env->Some_0->Err_0)
    } else {
        let rt = match env {
            Some(Ok(h)) => h,
            _ => runtime->Ok_0,
        };
        let sk = skill->Ok_0;
        let md = match model {
            Some(Ok(m)) => Some(m),
            _ => None,
        };
        if !absolute(rt) {
            Err("runtime.home must be an absolute path or start with `~`: "@ + rt)
        } else if !absolute(sk) {
            Err("agent.skill_path must be an absolute path or start with `~`: "@ + sk)
        } else if md is Some && !absolute(md->Some_0) {
            Err("transcribe.model.path must be an absolute path or start with `~`: "@ + md->Some_0)
        } else if transcribe_config_error(c.transcribe) is Some {
            Err(transcribe_config_error(c.transcribe)->Some_0)
        } else {
            Ok((rt, sk, md))
        }
    }
}

fn is_absolute(path: &str) -> (r: bool)
    ensures
        r == absolute(path@),
{
    let c = chars_of(path);
    c.len() > 0 && c[0] == '/'
}

/// Expands `~` in the runtime home, skill path and model path, lets `LILACCAPS_HOME`
/// (given as `lilaccaps_home`) replace the runtime home, requires the three to be
/// absolute, and checks the transcription settings.
pub fn resolve_config_paths(config: &mut Config, lilaccaps_home: Option<&str>, home: Option<&str>) -> (r: Result<
    (),
    String,
>)
    ensures
        match resolved_paths(*old(config), opt_str(lilaccaps_home), opt_str(home)) {
            Ok((rt, sk, md)) => r is Ok && final(config).runtime.home@ == rt && final(config).agent.skill_path@ == sk
                && opt_string(final(config).transcribe.model.path) == md && final(config).transcribe.engine
                == old(config).transcribe.engine && final(config).transcribe.model.id@
                == old(config).transcribe.model.id@,
            Err(e) => r matches Err(m) && m@ == e,
        },
        final(config).release == old(config).release,
        final(config).burnin == old(config).burnin,
        final(config).translate == old(config).translate,
        final(config).transcribe.engine == old(config).transcribe.engine,
        final(config).transcribe.language == old(config).transcribe.language,
        final(config).transcribe.segmentation == old(config).transcribe.segmentation,
        final(config).transcribe.cues == old(config).transcribe.cues,
        final(config).transcribe.cleanup == old(config).transcribe.cleanup,
        final(config).transcribe.model.id == old(config).transcribe.model.id,
{
    let runtime = expand_home_with(config.runtime.home.as_str(), home)?;
    let skill = expand_home_with(config.agent.skill_path.as_str(), home)?;
    let model = match &config.transcribe.model.path {
        Some(p) => Some(expand_home_with(p.as_str(), home)?),
        None => None,
    };
    let env = match lilaccaps_home {
        Some(h) => Some(expand_home_with(h, home)?),
        None => None,
    };
    let runtime = match env {
        Some(h) => h,
        None => runtime,
    };
    if !is_absolute(runtime.as_str()) {
        return Err(crate::text::concat_str("runtime.home must be an absolute path or start with `~`: ", runtime.as_str()));
    }
    if !is_absolute(skill.as_str()) {
        return Err(crate::text::concat_str("agent.skill_path must be an absolute path or start with `~`: ", skill.as_str()));
    }
    if let Some(m) = &model {
        if !is_absolute(m.as_str()) {
            return Err(crate::text::concat_str("transcribe.model.path must be an absolute path or start with `~`: ", m.as_str()));
        }
    }
    config.runtime.home = runtime;
    config.agent.skill_path = skill;
    config.transcribe.model.path = model;
    validate_transcribe_config(&config.transcribe)?;
    Ok(())
}

} // verus!
