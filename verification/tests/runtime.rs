use lilaccaps::runtime::{
    brew_fix_precheck, cargo_bin_dir_from, dependency_problem, doctor_report, ffmpeg_dependency,
    first_output_line, install_binary_path_in, models_dir, parent_dir, runtime_health,
    runtime_marker_path, still_unhealthy_message, tmp_dir, CommandDependency, DependencyStatus,
    DoctorReport,
};

fn missing_status(dependency: CommandDependency) -> DependencyStatus {
    DependencyStatus {
        dependency,
        available: false,
        healthy: false,
        path: None,
        version: None,
        error: None,
    }
}

#[test]
fn missing_dependency_error_includes_install_hint() {
    let missing = CommandDependency {
        name: "definitely-not-a-real-command-for-lilaccaps-tests".to_string(),
        purpose: "exercise dependency error messaging".to_string(),
        install_hint: "Install it with the package manager used for this environment".to_string(),
        brew_package: None,
        version_args: vec!["--version".to_string()],
    };
    let message = dependency_problem(&missing_status(missing.clone())).unwrap_err();
    assert!(message.contains(&missing.name));
    assert!(message.contains(&missing.install_hint));
}

#[test]
fn unhealthy_dependency_error_includes_probe_failure() {
    let unhealthy = CommandDependency {
        name: "sh".to_string(),
        purpose: "exercise dependency health checks".to_string(),
        install_hint: "Repair the command".to_string(),
        brew_package: None,
        version_args: vec!["-c".to_string()],
    };
    let status = DependencyStatus {
        dependency: unhealthy,
        available: true,
        healthy: false,
        path: Some("/bin/sh".to_string()),
        version: None,
        error: Some("synthetic probe failure".to_string()),
    };
    let message = dependency_problem(&status).unwrap_err();
    assert!(message.contains("failed its health check"));
    assert!(message.contains("synthetic probe failure"));
    assert_eq!(
        message,
        "sh at /bin/sh is required to exercise dependency health checks but failed its health check: synthetic probe failure. Repair the command"
    );
}

#[test]
fn brew_fix_rejects_non_macos_without_running_brew() {
    let report = DoctorReport {
        statuses: Vec::new(),
        missing_commands: vec!["ffmpeg".to_string()],
        advisories: vec!["ffmpeg missing".to_string()],
        brew_packages: vec!["ffmpeg".to_string()],
        can_fix_with_brew: false,
    };

    let err = brew_fix_precheck(&report, false).unwrap_err();
    assert!(err.contains("only supported on macOS with Homebrew"));
    assert_eq!(brew_fix_precheck(&report, true), Ok(true));
}

#[test]
fn extracts_first_non_empty_version_line() {
    let line = first_output_line(b"\nffmpeg version 8.1.2\nconfiguration: test\n");
    assert_eq!(line.as_deref(), Some("ffmpeg version 8.1.2"));
    assert_eq!(first_output_line(b"  \n\n"), None);
}

#[test]
fn doctor_report_lists_unhealthy_dependencies_once_per_package() {
    let mut ffprobe = ffmpeg_dependency();
    ffprobe.name = "ffprobe".to_string();
    let report = doctor_report(
        vec![missing_status(ffmpeg_dependency()), missing_status(ffprobe)],
        true,
    );
    assert_eq!(report.missing_commands, vec!["ffmpeg", "ffprobe"]);
    assert_eq!(report.brew_packages, vec!["ffmpeg-full"]);
    assert!(report.can_fix_with_brew);
    assert!(report.advisories[0].starts_with("ffmpeg is required to extract audio"));
}

#[test]
fn runtime_layout_paths() {
    assert_eq!(models_dir("/rt"), "/rt/models");
    assert_eq!(tmp_dir("/rt/"), "/rt/tmp");
    assert_eq!(runtime_marker_path("/rt"), "/rt/.lilaccaps-runtime");
    assert_eq!(parent_dir("/a/b.txt"), "/a");
    assert_eq!(parent_dir("b.txt"), ".");
    assert_eq!(install_binary_path_in("/c/bin"), "/c/bin/lilaccaps");
    assert_eq!(cargo_bin_dir_from(Some("/c"), None).unwrap(), "/c/bin");
    assert_eq!(cargo_bin_dir_from(None, Some("/home/u")).unwrap(), "/home/u/.cargo/bin");
    assert!(cargo_bin_dir_from(None, None).is_err());
}

#[test]
fn health_requires_installation_and_every_item() {
    let health = runtime_health(true, true, true, true, true, true, true, true, true, true);
    assert!(health.healthy && health.missing.is_empty());
    let health = runtime_health(true, false, true, true, false, true, false, false, false, false);
    assert!(!health.healthy);
    assert_eq!(health.missing, vec!["config", "ffprobe", "model"]);
    assert!(!health.config_valid && !health.build_ready);
    assert_eq!(
        still_unhealthy_message(&vec!["ffmpeg".to_string(), "magick".to_string()]),
        "dependency update completed but these commands are still unhealthy: ffmpeg, magick"
    );
}

#[test]
fn dependency_updates_are_skipped_off_macos_and_without_homebrew() {
    let off = lilaccaps::runtime::brew_update_precheck(false, true).unwrap();
    assert!(off.updated_packages.is_empty());
    assert_eq!(
        off.skipped_reason.as_deref(),
        Some("automatic dependency updates are only supported on macOS with Homebrew")
    );
    let no_brew = lilaccaps::runtime::brew_update_precheck(true, false).unwrap();
    assert_eq!(no_brew.skipped_reason.as_deref(), Some("Homebrew is not available"));
    assert!(lilaccaps::runtime::brew_update_precheck(true, true).is_none());
    assert_eq!(lilaccaps::runtime::brew_package_action(true), "upgrade");
    assert_eq!(lilaccaps::runtime::brew_package_action(false), "install");
}

#[test]
fn install_path_is_the_cargo_bin_binary() {
    assert_eq!(
        lilaccaps::runtime::install_binary_path_from(Some("/opt/cargo"), Some("/home/u")),
        Ok("/opt/cargo/bin/lilaccaps".to_string())
    );
    assert_eq!(
        lilaccaps::runtime::install_binary_path_from(None, Some("/home/u")),
        Ok("/home/u/.cargo/bin/lilaccaps".to_string())
    );
    assert_eq!(
        lilaccaps::runtime::install_binary_path_from(None, None),
        Err("failed to detect home directory".to_string())
    );
}
