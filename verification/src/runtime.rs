//! The runtime directory's layout, the external commands lilaccaps relies on, and
//! the reports built from probing them.
use vstd::prelude::*;

use crate::config::{join_path, join_path_str};
use crate::text::{
    chars_of, concat_str, lines, lines_of, str_eq, string_of, trim, trim_chars, views,
};

verus! {

broadcast use vstd::string::group_string_axioms;

pub const RUNTIME_MARKER_FILE: &'static str = ".lilaccaps-runtime";

/// An external command, what it is for and how to install it.
#[derive(Debug, Clone)]
pub struct CommandDependency {
    pub name: String,
    pub purpose: String,
    pub install_hint: String,
    pub brew_package: Option<String>,
    pub version_args: Vec<String>,
}

/// What probing a dependency found.
#[derive(Debug, Clone)]
pub struct DependencyStatus {
    pub dependency: CommandDependency,
    pub available: bool,
    pub healthy: bool,
    pub path: Option<String>,
    pub version: Option<String>,
    pub error: Option<String>,
}

/// Unhealthy dependencies, with advice and the Homebrew packages that would fix them.
#[derive(Debug, Clone)]
pub struct DoctorReport {
    pub statuses: Vec<DependencyStatus>,
    pub missing_commands: Vec<String>,
    pub advisories: Vec<String>,
    pub brew_packages: Vec<String>,
    pub can_fix_with_brew: bool,
}

#[derive(Debug, Clone)]
pub struct DependencyUpdateReport {
    pub updated_packages: Vec<String>,
    pub skipped_reason: Option<String>,
}

/// Readiness of the installation.
#[derive(Debug, Clone)]
pub struct RuntimeHealth {
    pub installed: bool,
    pub config_valid: bool,
    pub healthy: bool,
    pub cargo_available: bool,
    pub ffmpeg_available: bool,
    pub ffprobe_available: bool,
    pub cmake_available: bool,
    pub magick_available: bool,
    pub build_ready: bool,
    pub fallback_renderer_ready: bool,
    pub model_ready: bool,
    pub missing: Vec<String>,
}

/// A dependency as plain values: name, purpose, install hint, Homebrew package and
/// version arguments.
pub type DependencyModel = (Seq<char>, Seq<char>, Seq<char>, Option<Seq<char>>, Seq<Seq<char>>);

pub open spec fn dependency_model(d: CommandDependency) -> DependencyModel {
    (
        d.name@,
        d.purpose@,
        d.install_hint@,
        match d.brew_package {
            Some(p) => Some(p@),
            None => None,
        },
        d.version_args@.map_values(|a: String| a@),
    )
}

fn dependency(
    name: &str,
    purpose: &str,
    install_hint: &str,
    brew_package: Option<&str>,
    version_arg: &str,
) -> (r: CommandDependency)
    ensures
        dependency_model(r) == (
            name@,
            purpose@,
            install_hint@,
            match brew_package {
                Some(p) => Some(p@),
                None => None::<Seq<char>>,
            },
            seq![version_arg@],
        ),
{
    let r = CommandDependency {
        name: name.to_owned(),
        purpose: purpose.to_owned(),
        install_hint: install_hint.to_owned(),
        brew_package: match brew_package {
            Some(p) => Some(p.to_owned()),
            None => None,
        },
        version_args: vec![version_arg.to_owned()],
    };
    assert(r.version_args@.map_values(|a: String| a@) =~= seq![version_arg@]);
    r
}

pub open spec fn cargo_model() -> DependencyModel {
    ("cargo"@, "build and update the lilaccaps binary from source"@, "Install the Rust toolchain from https://rustup.rs"@, None, seq!["--version"@])
}

pub fn cargo_dependency() -> (r: CommandDependency)
    ensures
        dependency_model(r) == cargo_model(),
{
    dependency(
        "cargo",
        "build and update the lilaccaps binary from source",
        "Install the Rust toolchain from https://rustup.rs",
        None,
        "--version",
    )
}

pub open spec fn ffmpeg_model() -> DependencyModel {
    ("ffmpeg"@, "extract audio and render video output"@, "On macOS with Homebrew: brew install ffmpeg-full"@, Some("ffmpeg-full"@), seq!["-version"@])
}

pub fn ffmpeg_dependency() -> (r: CommandDependency)
    ensures
        dependency_model(r) == ffmpeg_model(),
{
    dependency(
        "ffmpeg",
        "extract audio and render video output",
        "On macOS with Homebrew: brew install ffmpeg-full",
        Some("ffmpeg-full"),
        "-version",
    )
}

pub open spec fn ffprobe_model() -> DependencyModel {
    ("ffprobe"@, "inspect media streams and dimensions"@, "On macOS with Homebrew: brew install ffmpeg-full"@, Some("ffmpeg-full"@), seq!["-version"@])
}

pub fn ffprobe_dependency() -> (r: CommandDependency)
    ensures
        dependency_model(r) == ffprobe_model(),
{
    dependency(
        "ffprobe",
        "inspect media streams and dimensions",
        "On macOS with Homebrew: brew install ffmpeg-full",
        Some("ffmpeg-full"),
        "-version",
    )
}

pub open spec fn cmake_model() -> DependencyModel {
    ("cmake"@, "build whisper-rs and whisper.cpp during cargo install/update"@, "On macOS with Homebrew: brew install cmake"@, Some("cmake"@), seq!["--version"@])
}

pub fn cmake_dependency() -> (r: CommandDependency)
    ensures
        dependency_model(r) == cmake_model(),
{
    dependency(
        "cmake",
        "build whisper-rs and whisper.cpp during cargo install/update",
        "On macOS with Homebrew: brew install cmake",
        Some("cmake"),
        "--version",
    )
}

pub open spec fn magick_model() -> DependencyModel {
    ("magick"@, "render fallback subtitle overlays, text watermarks, and converted image watermarks"@, "On macOS with Homebrew: brew install imagemagick"@, Some("imagemagick"@), seq!["--version"@])
}

pub fn magick_dependency() -> (r: CommandDependency)
    ensures
        dependency_model(r) == magick_model(),
{
    dependency(
        "magick",
        "render fallback subtitle overlays, text watermarks, and converted image watermarks",
        "On macOS with Homebrew: brew install imagemagick",
        Some("imagemagick"),
        "--version",
    )
}

pub open spec fn brew_model() -> DependencyModel {
    ("brew"@, "install missing lilaccaps prerequisites automatically"@, "Install Homebrew from https://brew.sh and rerun lilaccaps doctor --fix"@, None, seq!["--version"@])
}

pub fn brew_dependency() -> (r: CommandDependency)
    ensures
        dependency_model(r) == brew_model(),
{
    dependency(
        "brew",
        "install missing lilaccaps prerequisites automatically",
        "Install Homebrew from https://brew.sh and rerun lilaccaps doctor --fix",
        None,
        "--version",
    )
}

/// Every dependency the doctor checks, in report order.
pub fn all_dependencies() -> (r: Vec<CommandDependency>)
    ensures
        r@.map_values(|d: CommandDependency| dependency_model(d)) == seq![
            cargo_model(),
            ffmpeg_model(),
            ffprobe_model(),
            cmake_model(),
            magick_model(),
        ],
{
    let r = vec![
        cargo_dependency(),
        ffmpeg_dependency(),
        ffprobe_dependency(),
        cmake_dependency(),
        magick_dependency(),
    ];
    assert(r@.map_values(|d: CommandDependency| dependency_model(d)) =~= seq![
        cargo_model(),
        ffmpeg_model(),
        ffprobe_model(),
        cmake_model(),
        magick_model(),
    ]);
    r
}

// ---------------------------------------------------------------------------
// Messages.
// ---------------------------------------------------------------------------

pub open spec fn located_at(s: DependencyStatus) -> Seq<char> {
    match s.path {
        Some(p) => p@,
        None => s.dependency.name@,
    }
}

/// Why a required dependency cannot be used.
pub open spec fn dependency_message(s: DependencyStatus) -> Seq<char> {
    let d = s.dependency;
    match s.error {
        Some(e) => d.name@ + " at "@ + located_at(s) + " is required to "@ + d.purpose@
            + " but failed its health check: "@ + e@ + ". "@ + d.install_hint@,
        None => d.name@ + " is required to "@ + d.purpose@ + " but was not found on PATH. "@
            + d.install_hint@,
    }
}

/// The doctor's advice for an unhealthy dependency.
pub open spec fn advisory(s: DependencyStatus) -> Seq<char> {
    let d = s.dependency;
    match s.error {
        Some(e) => d.name@ + " at "@ + located_at(s) + " was found but failed its health check: "@
            + e@ + ". "@ + d.install_hint@,
        None => d.name@ + " is required to "@ + d.purpose@ + " but was not found on PATH. "@
            + d.install_hint@,
    }
}

fn append(out: &mut Vec<char>, s: &str)
    ensures
        final(out)@ == old(out)@ + s@,
{
    let c = chars_of(s);
    crate::text::extend_chars(out, &c);
}

fn location(status: &DependencyStatus) -> (r: &str)
    ensures
        r@ == located_at(*status),
{
    match &status.path {
        Some(p) => p.as_str(),
        None => status.dependency.name.as_str(),
    }
}

/// `Ok` for a healthy dependency; otherwise the reason it cannot be used.
pub fn dependency_problem(status: &DependencyStatus) -> (r: Result<(), String>)
    ensures
        status.healthy ==> r is Ok,
        !status.healthy ==> (r matches Err(e) && e@ == dependency_message(*status)),
{
    if status.healthy {
        return Ok(());
    }
    let d = &status.dependency;
    let mut out: Vec<char> = Vec::new();
    match &status.error {
        Some(e) => {
            append(&mut out, d.name.as_str());
            append(&mut out, " at ");
            append(&mut out, location(status));
            append(&mut out, " is required to ");
            append(&mut out, d.purpose.as_str());
            append(&mut out, " but failed its health check: ");
            append(&mut out, e.as_str());
            append(&mut out, ". ");
            append(&mut out, d.install_hint.as_str());
        },
        None => {
            append(&mut out, d.name.as_str());
            append(&mut out, " is required to ");
            append(&mut out, d.purpose.as_str());
            append(&mut out, " but was not found on PATH. ");
            append(&mut out, d.install_hint.as_str());
        },
    }
    assert(out@ =~= dependency_message(*status));
    Err(string_of(&out))
}

fn advisory_for(status: &DependencyStatus) -> (r: String)
    ensures
        r@ == advisory(*status),
{
    let d = &status.dependency;
    let mut out: Vec<char> = Vec::new();
    match &status.error {
        Some(e) => {
            append(&mut out, d.name.as_str());
            append(&mut out, " at ");
            append(&mut out, location(status));
            append(&mut out, " was found but failed its health check: ");
            append(&mut out, e.as_str());
            append(&mut out, ". ");
            append(&mut out, d.install_hint.as_str());
        },
        None => {
            append(&mut out, d.name.as_str());
            append(&mut out, " is required to ");
            append(&mut out, d.purpose.as_str());
            append(&mut out, " but was not found on PATH. ");
            append(&mut out, d.install_hint.as_str());
        },
    }
    assert(out@ =~= advisory(*status));
    string_of(&out)
}

// ---------------------------------------------------------------------------
// The doctor report.
// ---------------------------------------------------------------------------

pub open spec fn unhealthy(statuses: Seq<DependencyStatus>) -> Seq<DependencyStatus>
    decreases statuses.len(),
{
    if statuses.len() == 0 {
        seq![]
    } else if statuses.last().healthy {
        unhealthy(statuses.drop_last())
    } else {
        unhealthy(statuses.drop_last()).push(statuses.last())
    }
}

/// The distinct Homebrew packages of `statuses`, in first-mention order.
pub open spec fn brew_packages_of(statuses: Seq<DependencyStatus>) -> Seq<Seq<char>>
    decreases statuses.len(),
{
    if statuses.len() == 0 {
        seq![]
    } else {
        let rest = brew_packages_of(statuses.drop_last());
        match statuses.last().dependency.brew_package {
            Some(p) => if rest.contains(p@) {
                rest
            } else {
                rest.push(p@)
            },
            None => rest,
        }
    }
}

/// Builds the doctor's report from probe results. `brew_usable` says whether the
/// platform is macOS with Homebrew on the PATH.
pub fn doctor_report(statuses: Vec<DependencyStatus>, brew_usable: bool) -> (r: DoctorReport)
    ensures
        r.missing_commands@.map_values(|s: String| s@) == unhealthy(statuses@).map_values(
            |s: DependencyStatus| s.dependency.name@,
        ),
        r.advisories@.map_values(|s: String| s@) == unhealthy(statuses@).map_values(
            |s: DependencyStatus| advisory(s),
        ),
        r.brew_packages@.map_values(|s: String| s@) == brew_packages_of(unhealthy(statuses@)),
        r.can_fix_with_brew == (brew_usable && brew_packages_of(unhealthy(statuses@)).len() > 0),
        r.statuses@ == statuses@,
{
    let mut missing_commands: Vec<String> = Vec::new();
    let mut advisories: Vec<String> = Vec::new();
    let mut brew_packages: Vec<String> = Vec::new();
    let mut i: usize = 0;
    while i < statuses.len()
        invariant
            i <= statuses.len(),
            missing_commands@.map_values(|s: String| s@) == unhealthy(
                statuses@.subrange(0, i as int),
            ).map_values(|s: DependencyStatus| s.dependency.name@),
            advisories@.map_values(|s: String| s@) == unhealthy(
                statuses@.subrange(0, i as int),
            ).map_values(|s: DependencyStatus| advisory(s)),
            brew_packages@.map_values(|s: String| s@) == brew_packages_of(
                unhealthy(statuses@.subrange(0, i as int)),
            ),
        decreases statuses.len() - i,
    {
        let status = &statuses[i];
        let ghost prefix = statuses@.subrange(0, i as int + 1);
        let ghost un = unhealthy(statuses@.subrange(0, i as int));
        proof {
            assert(prefix.drop_last() =~= statuses@.subrange(0, i as int));
            assert(prefix.last() == *status);
        }
        if !status.healthy {
            let ghost m0 = missing_commands@.map_values(|s: String| s@);
            let ghost a0 = advisories@.map_values(|s: String| s@);
            let ghost b0 = brew_packages@.map_values(|s: String| s@);
            missing_commands.push(status.dependency.name.clone());
            assert(missing_commands@.map_values(|s: String| s@) =~= m0.push(status.dependency.name@));
            assert(un.push(*status).map_values(|s: DependencyStatus| s.dependency.name@) =~= un.map_values(
                |s: DependencyStatus| s.dependency.name@,
            ).push(status.dependency.name@));
            advisories.push(advisory_for(status));
            assert(advisories@.map_values(|s: String| s@) =~= a0.push(advisory(*status)));
            assert(un.push(*status).map_values(|s: DependencyStatus| advisory(s)) =~= un.map_values(
                |s: DependencyStatus| advisory(s),
            ).push(advisory(*status)));
            assert(un.push(*status).drop_last() =~= un);
            if let Some(package) = &status.dependency.brew_package {
                let mut seen = false;
                let mut k: usize = 0;
                while k < brew_packages.len()
                    invariant
                        k <= brew_packages.len(),
                        seen == (exists|j: int| 0 <= j < k && brew_packages@[j]@ == package@),
                    decreases brew_packages.len() - k,
                {
                    if str_eq(brew_packages[k].as_str(), package.as_str()) {
                        seen = true;
                    }
                    k += 1;
                }
                proof {
                    if seen {
                        let j = choose|j: int| 0 <= j < brew_packages.len() && brew_packages@[j]@ == package@;
                        assert(b0[j] == package@);
                        assert(b0.contains(package@));
                    } else {
                        assert forall|j: int| 0 <= j < b0.len() implies b0[j] != package@ by {
                            assert(b0[j] == brew_packages@[j]@);
                        }
                        assert(!b0.contains(package@));
                    }
                }
                if !seen {
                    brew_packages.push(package.clone());
                    assert(brew_packages@.map_values(|s: String| s@) =~= b0.push(package@));
                }
            }
        }
        i += 1;
    }
    assert(statuses@.subrange(0, statuses.len() as int) =~= statuses@);
    let can_fix_with_brew = brew_usable && brew_packages.len() > 0;
    DoctorReport { statuses, missing_commands, advisories, brew_packages, can_fix_with_brew }
}

/// Whether a Homebrew repair should run: `Ok(false)` when there is nothing to install,
/// an error off macOS, and `Ok(true)` otherwise.
pub fn brew_fix_precheck(report: &DoctorReport, macos: bool) -> (r: Result<bool, String>)
    ensures
        report.brew_packages@.len() == 0 ==> r == Ok::<bool, String>(false),
        report.brew_packages@.len() > 0 && !macos ==> (r matches Err(e) && e@
            == "automatic prerequisite installation is only supported on macOS with Homebrew"@),
        report.brew_packages@.len() > 0 && macos ==> r == Ok::<bool, String>(true),
{
    if report.brew_packages.len() == 0 {
        return Ok(false);
    }
    if !macos {
        return Err(
            "automatic prerequisite installation is only supported on macOS with Homebrew".to_owned(),
        );
    }
    Ok(true)
}

/// A report of an update that was skipped for the reason `why` and updated nothing.
pub open spec fn skipped_update(r: Option<DependencyUpdateReport>, why: Seq<char>) -> bool {
    match r {
        Some(rep) => rep.updated_packages@.len() == 0 && match rep.skipped_reason {
            Some(w) => w@ == why,
            None => false,
        },
        None => false,
    }
}

/// Whether a dependency update can run: off macOS, or without Homebrew, the update is
/// skipped and this is its report; otherwise `None`, and the update goes ahead.
pub fn brew_update_precheck(macos: bool, brew_available: bool) -> (r: Option<DependencyUpdateReport>)
    ensures
        !macos ==> skipped_update(r, "automatic dependency updates are only supported on macOS with Homebrew"@),
        macos && !brew_available ==> skipped_update(r, "Homebrew is not available"@),
        macos && brew_available ==> r is None,
{
    if !macos {
        return Some(DependencyUpdateReport {
            updated_packages: Vec::new(),
            skipped_reason: Some("automatic dependency updates are only supported on macOS with Homebrew".to_owned()),
        });
    }
    if !brew_available {
        return Some(DependencyUpdateReport {
            updated_packages: Vec::new(),
            skipped_reason: Some("Homebrew is not available".to_owned()),
        });
    }
    None
}

/// The Homebrew command that brings a managed package up to date: `upgrade` when it is
/// installed, else `install`.
pub fn brew_package_action(installed: bool) -> (r: &'static str)
    ensures
        r@ == if installed {
            "upgrade"@
        } else {
            "install"@
        },
{
    if installed {
        "upgrade"
    } else {
        "install"
    }
}

/// The items whose absence makes an installation unhealthy, in report order.
pub open spec fn missing_items(
    config_exists: bool,
    runtime_home_exists: bool,
    skill_exists: bool,
    ffmpeg: bool,
    ffprobe: bool,
    model_ready: bool,
) -> Seq<Seq<char>> {
    (if config_exists {
        seq![]
    } else {
        seq!["config"@]
    }) + (if runtime_home_exists {
        seq![]
    } else {
        seq!["runtime_home"@]
    }) + (if skill_exists {
        seq![]
    } else {
        seq!["skill_path"@]
    }) + (if ffmpeg {
        seq![]
    } else {
        seq!["ffmpeg"@]
    }) + (if ffprobe {
        seq![]
    } else {
        seq!["ffprobe"@]
    }) + (if model_ready {
        seq![]
    } else {
        seq!["model"@]
    })
}

/// Summarises what was found on disk and on the PATH.
pub fn runtime_health(
    installed: bool,
    config_exists: bool,
    runtime_home_exists: bool,
    skill_exists: bool,
    cargo_available: bool,
    ffmpeg_available: bool,
    ffprobe_available: bool,
    cmake_available: bool,
    magick_available: bool,
    model_ready: bool,
) -> (r: RuntimeHealth)
    ensures
        r.missing@.map_values(|s: String| s@) == missing_items(
            config_exists,
            runtime_home_exists,
            skill_exists,
            ffmpeg_available,
            ffprobe_available,
            model_ready,
        ),
        r.config_valid == config_exists,
        r.healthy == (installed && config_exists && runtime_home_exists && skill_exists
            && ffmpeg_available && ffprobe_available && model_ready),
        r.build_ready == (cargo_available && cmake_available),
        r.fallback_renderer_ready == magick_available,
        r.installed == installed,
        r.model_ready == model_ready,
{
    let mut missing: Vec<String> = Vec::new();
    if !config_exists {
        missing.push("config".to_owned());
    }
    if !runtime_home_exists {
        missing.push("runtime_home".to_owned());
    }
    if !skill_exists {
        missing.push("skill_path".to_owned());
    }
    if !ffmpeg_available {
        missing.push("ffmpeg".to_owned());
    }
    if !ffprobe_available {
        missing.push("ffprobe".to_owned());
    }
    if !model_ready {
        missing.push("model".to_owned());
    }
    assert(missing@.map_values(|s: String| s@) =~= missing_items(
        config_exists,
        runtime_home_exists,
        skill_exists,
        ffmpeg_available,
        ffprobe_available,
        model_ready,
    ));
    RuntimeHealth {
        installed,
        config_valid: config_exists,
        healthy: installed && missing.len() == 0,
        cargo_available,
        ffmpeg_available,
        ffprobe_available,
        cmake_available,
        magick_available,
        build_ready: cargo_available && cmake_available,
        fallback_renderer_ready: magick_available,
        model_ready,
        missing,
    }
}

// ---------------------------------------------------------------------------
// Probe output.
// ---------------------------------------------------------------------------

/// The text `String::from_utf8_lossy` makes of some bytes.
pub uninterp spec fn lossy_text(bytes: Seq<u8>) -> Seq<char>;

/// `String::from_utf8_lossy`: the bytes as text, invalid sequences replaced.
#[verifier::external_body]
fn decode_lossy(bytes: &[u8]) -> (r: String)
    ensures
        r@ == lossy_text(bytes@),
{
    String::from_utf8_lossy(bytes).into_owned()
}

/// The first line of `ls` that is not blank, trimmed.
pub open spec fn first_nonblank(ls: Seq<Seq<char>>) -> Option<Seq<char>>
    decreases ls.len(),
{
    if ls.len() == 0 {
        None
    } else if trim(ls[0]).len() > 0 {
        Some(trim(ls[0]))
    } else {
        first_nonblank(ls.drop_first())
    }
}

/// The first non-blank line of a command's output, trimmed: its version line.
pub fn first_output_line(output: &[u8]) -> (r: Option<String>)
    ensures
        match r {
            Some(s) => first_nonblank(lines(lossy_text(output@))) == Some(s@),
            None => first_nonblank(lines(lossy_text(output@))) is None,
        },
{
    let text = decode_lossy(output);
    let chars = chars_of(text.as_str());
    let ls = lines_of(&chars);
    let ghost all = views(ls@);
    let mut i: usize = 0;
    assert(all.subrange(0, all.len() as int) =~= all);
    while i < ls.len()
        invariant
            i <= ls.len(),
            all == views(ls@),
            all == lines(lossy_text(output@)),
            first_nonblank(all) == first_nonblank(all.subrange(i as int, all.len() as int)),
        decreases ls.len() - i,
    {
        let t = trim_chars(&ls[i]);
        let ghost rest = all.subrange(i as int, all.len() as int);
        assert(rest[0] == ls@[i as int]@);
        if t.len() > 0 {
            return Some(string_of(&t));
        }
        assert(rest.drop_first() =~= all.subrange(i + 1, all.len() as int));
        i += 1;
    }
    None
}

// ---------------------------------------------------------------------------
// Paths.
// ---------------------------------------------------------------------------

/// What `Path::parent` gives for a path.
pub uninterp spec fn path_parent(path: Seq<char>) -> Option<Seq<char>>;

/// `Path::parent`: the path without its last component, if it has one.
#[verifier::external_body]
fn parent_of(path: &str) -> (r: Option<String>)
    ensures
        match r {
            Some(p) => path_parent(path@) == Some(p@),
            None => path_parent(path@) is None,
        },
{
    std::path::Path::new(path).parent().map(|p| p.to_string_lossy().into_owned())
}

/// The directory holding `path`: its parent, or `.` when it has none.
pub open spec fn parent_dir_of(path: Seq<char>) -> Seq<char> {
    match path_parent(path) {
        Some(p) => if p.len() > 0 {
            p
        } else {
            "."@
        },
        None => "."@,
    }
}

pub fn parent_dir(path: &str) -> (r: String)
    ensures
        r@ == parent_dir_of(path@),
{
    match parent_of(path) {
        Some(p) => if chars_of(p.as_str()).len() > 0 {
            p
        } else {
            ".".to_owned()
        },
        None => ".".to_owned(),
    }
}

pub fn models_dir(runtime_home: &str) -> (r: String)
    ensures
        r@ == join_path(runtime_home@, "models"@),
{
    join_path_str(runtime_home, "models")
}

pub fn tmp_dir(runtime_home: &str) -> (r: String)
    ensures
        r@ == join_path(runtime_home@, "tmp"@),
{
    join_path_str(runtime_home, "tmp")
}

pub fn runtime_marker_path(runtime_home: &str) -> (r: String)
    ensures
        r@ == join_path(runtime_home@, RUNTIME_MARKER_FILE@),
{
    join_path_str(runtime_home, RUNTIME_MARKER_FILE)
}

/// Cargo's binary directory: `$CARGO_HOME/bin`, else `~/.cargo/bin`.
pub fn cargo_bin_dir_from(cargo_home: Option<&str>, home: Option<&str>) -> (r: Result<String, String>)
    ensures
        match cargo_home {
            Some(c) => r matches Ok(p) && p@ == join_path(c@, "bin"@),
            None => match home {
                Some(h) => r matches Ok(p) && p@ == join_path(join_path(h@, ".cargo"@), "bin"@),
                None => r matches Err(e) && e@ == "failed to detect home directory"@,
            },
        },
{
    match cargo_home {
        Some(c) => Ok(join_path_str(c, "bin")),
        None => match home {
            Some(h) => {
                let cargo = join_path_str(h, ".cargo");
                Ok(join_path_str(&cargo, "bin"))
            },
            None => Err("failed to detect home directory".to_owned()),
        },
    }
}

/// Where `cargo install` puts the lilaccaps binary.
pub fn install_binary_path_in(bin_dir: &str) -> (r: String)
    ensures
        r@ == join_path(bin_dir@, "lilaccaps"@),
{
    join_path_str(bin_dir, "lilaccaps")
}

/// Where `install` puts the binary: `lilaccaps` in the `bin` directory of `CARGO_HOME`,
/// else of `~/.cargo`.
pub fn install_binary_path_from(cargo_home: Option<&str>, home: Option<&str>) -> (r: Result<String, String>)
    ensures
        match cargo_home {
            Some(c) => r matches Ok(p) && p@ == join_path(join_path(c@, "bin"@), "lilaccaps"@),
            None => match home {
                Some(h) => r matches Ok(p) && p@ == join_path(
                    join_path(join_path(h@, ".cargo"@), "bin"@),
                    "lilaccaps"@,
                ),
                None => r matches Err(e) && e@ == "failed to detect home directory"@,
            },
        },
{
    let bin = cargo_bin_dir_from(cargo_home, home)?;
    Ok(install_binary_path_in(bin.as_str()))
}

/// The message when dependencies stay unhealthy after an update.
pub fn still_unhealthy_message(names: &Vec<String>) -> (r: String)
    ensures
        r@ == "dependency update completed but these commands are still unhealthy: "@
            + crate::text::join(names@.map_values(|s: String| s@), ", "@),
{
    let mut parts: Vec<Vec<char>> = Vec::new();
    let mut i: usize = 0;
    while i < names.len()
        invariant
            i <= names.len(),
            views(parts@) == names@.map_values(|s: String| s@).subrange(0, i as int),
        decreases names.len() - i,
    {
        let ghost before = views(parts@);
        parts.push(chars_of(names[i].as_str()));
        assert(views(parts@) =~= before.push(names@[i as int]@));
        i += 1;
        assert(views(parts@) =~= names@.map_values(|s: String| s@).subrange(0, i as int));
    }
    assert(names@.map_values(|s: String| s@).subrange(0, names.len() as int) =~= names@.map_values(
        |s: String| s@,
    ));
    let sep = chars_of(", ");
    let joined = crate::text::join_chars(&parts, &sep);
    concat_str("dependency update completed but these commands are still unhealthy: ", &string_of(&joined))
}

/// The components of a path as plain strings.
pub open spec fn parts(v: Seq<String>) -> Seq<Seq<char>> {
    v.map_values(|s: String| s@)
}

/// `a` is an initial run of the components of `b` (a path starting with another).
pub open spec fn is_component_prefix(a: Seq<Seq<char>>, b: Seq<Seq<char>>) -> bool {
    a.len() <= b.len() && b.subrange(0, a.len() as int) == a
}

/// Why a runtime home may not be removed recursively: the filesystem root, the home or
/// current directory or one of their ancestors, a directory too close to the root
/// (under two components, or under four unless it is named `lilaccaps`), or a directory
/// without the runtime marker that is not `~/.lilac/lilaccaps`. Paths are canonical and
/// given by their components; `shown` is how the directory is printed.
pub open spec fn removal_refusal_of(
    canonical: Seq<Seq<char>>,
    home: Seq<Seq<char>>,
    current: Seq<Seq<char>>,
    marker_exists: bool,
    shown: Seq<char>,
) -> Option<Seq<char>> {
    let n = canonical.len();
    if n == 0 || home == canonical || is_component_prefix(canonical, home) || current == canonical
        || is_component_prefix(canonical, current) {
        Some("refusing to remove protected runtime home: "@ + shown)
    } else if n < 2 || (n < 4 && canonical[n - 1] != "lilaccaps"@) {
        Some("refusing to remove shallow runtime home: "@ + shown)
    } else if !marker_exists && canonical != home + seq![".lilac"@, "lilaccaps"@] {
        Some("refusing to remove unowned runtime home without "@ + RUNTIME_MARKER_FILE@ + ": "@ + shown)
    } else {
        None
    }
}

fn same_components(a: &Vec<String>, b: &Vec<String>) -> (r: bool)
    ensures
        r == (parts(a@) == parts(b@)),
{
    if a.len() != b.len() {
        assert(parts(a@).len() != parts(b@).len());
        return false;
    }
    component_prefix(a, b)
}

fn component_prefix(a: &Vec<String>, b: &Vec<String>) -> (r: bool)
    ensures
        r == is_component_prefix(parts(a@), parts(b@)),
        a@.len() == b@.len() ==> (r == (parts(a@) == parts(b@))),
{
    if a.len() > b.len() {
        return false;
    }
    let mut i: usize = 0;
    while i < a.len()
        invariant
            i <= a.len() <= b.len(),
            forall|k: int| 0 <= k < i ==> a@[k]@ == b@[k]@,
        decreases a.len() - i,
    {
        if !str_eq(a[i].as_str(), b[i].as_str()) {
            assert(parts(b@).subrange(0, a.len() as int)[i as int] != parts(a@)[i as int]);
            return false;
        }
        i += 1;
    }
    assert(parts(b@).subrange(0, a.len() as int) =~= parts(a@));
    proof {
        if a@.len() == b@.len() {
            assert(parts(b@) =~= parts(b@).subrange(0, a.len() as int));
        }
    }
    true
}

/// The refusal for removing a runtime home, if any.
pub fn removal_refusal(
    canonical: &Vec<String>,
    home: &Vec<String>,
    current: &Vec<String>,
    marker_exists: bool,
    shown: &str,
) -> (r: Option<String>)
    ensures
        match r {
            Some(m) => removal_refusal_of(parts(canonical@), parts(home@), parts(current@), marker_exists, shown@)
                == Some(m@),
            None => removal_refusal_of(parts(canonical@), parts(home@), parts(current@), marker_exists, shown@)
                is None,
        },
{
    let n = canonical.len();
    if n == 0 || same_components(home, canonical) || component_prefix(canonical, home) || same_components(
        current,
        canonical,
    ) || component_prefix(canonical, current) {
        return Some(concat_str("refusing to remove protected runtime home: ", shown));
    }
    if n < 2 || (n < 4 && !str_eq(canonical[n - 1].as_str(), "lilaccaps")) {
        return Some(concat_str("refusing to remove shallow runtime home: ", shown));
    }
    let mut owned_default = home.clone();
    owned_default.push(".lilac".to_owned());
    owned_default.push("lilaccaps".to_owned());
    proof {
        assert(parts(owned_default@) =~= parts(home@) + seq![".lilac"@, "lilaccaps"@]);
    }
    if !marker_exists && !same_components(canonical, &owned_default) {
        let head = concat_str("refusing to remove unowned runtime home without ", RUNTIME_MARKER_FILE);
        let head = concat_str(head.as_str(), ": ");
        return Some(concat_str(head.as_str(), shown));
    }
    None
}

} // verus!
