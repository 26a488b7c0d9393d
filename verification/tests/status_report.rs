use lilaccaps::runtime::{CommandDependency, DependencyStatus, DoctorReport, RuntimeHealth};
use lilaccaps::status::{dependency_state, status_lines, StatusFacts};

fn dependency(name: &str) -> CommandDependency {
    CommandDependency {
        name: name.into(),
        purpose: "test".into(),
        install_hint: "install it".into(),
        brew_package: None,
        version_args: vec!["-version".into()],
    }
}

fn facts() -> StatusFacts {
    StatusFacts {
        version: "1.0.0".into(),
        latest_stable: None,
        latest_stable_error: Some("offline".into()),
        binary_path: "/bin/lilaccaps".into(),
        installed_binary_path: "/home/u/.cargo/bin/lilaccaps".into(),
        config_path: "/home/u/.lilaccaps/lilaccaps.toml".into(),
        runtime_home: "/home/u/.lilaccaps".into(),
        skill_path: "/home/u/skill.md".into(),
        skill_detected: None,
        model_path: "/home/u/.lilaccaps/models/ggml.bin".into(),
        health: RuntimeHealth {
            installed: true,
            config_valid: true,
            healthy: false,
            cargo_available: true,
            ffmpeg_available: false,
            ffprobe_available: true,
            cmake_available: false,
            magick_available: true,
            build_ready: false,
            fallback_renderer_ready: true,
            model_ready: true,
            missing: vec!["ffmpeg".into()],
        },
        uv_available: false,
        codex_available: true,
        transcription_engine_ready: false,
        cleanup_ready: true,
        doctor: DoctorReport {
            statuses: vec![
                DependencyStatus {
                    dependency: dependency("ffmpeg"),
                    available: true,
                    healthy: false,
                    path: Some("/usr/bin/ffmpeg".into()),
                    version: None,
                    error: Some("library not loaded".into()),
                },
                DependencyStatus {
                    dependency: dependency("ffprobe"),
                    available: true,
                    healthy: true,
                    path: Some("/usr/bin/ffprobe".into()),
                    version: Some("ffprobe version 7".into()),
                    error: None,
                },
            ],
            missing_commands: vec!["ffmpeg".into()],
            advisories: vec!["reinstall ffmpeg".into()],
            brew_packages: vec![],
            can_fix_with_brew: false,
        },
    }
}

#[test]
fn status_lines_list_every_field_then_each_dependency() {
    let lines = status_lines(&facts());
    let expected = vec![
        "version = 1.0.0",
        "latest_stable = unavailable",
        "latest_stable_error = offline",
        "binary_path = /bin/lilaccaps",
        "installed_binary_path = /home/u/.cargo/bin/lilaccaps",
        "config_path = /home/u/.lilaccaps/lilaccaps.toml",
        "runtime_home = /home/u/.lilaccaps",
        "skill_path = /home/u/skill.md",
        "skill_detected = unavailable",
        "model_path = /home/u/.lilaccaps/models/ggml.bin",
        "config_valid = true",
        "installed = true",
        "healthy = false",
        "cargo_available = true",
        "ffmpeg_available = false",
        "ffprobe_available = true",
        "cmake_available = false",
        "magick_available = true",
        "uv_available = false",
        "codex_available = true",
        "transcription_engine_ready = false",
        "cleanup_ready = true",
        "build_ready = false",
        "fallback_renderer_ready = true",
        "can_fix_with_brew = false",
        "model_ready = true",
        "missing = ffmpeg",
        "brew_packages = none",
        "advisories = reinstall ffmpeg",
        "dependency.ffmpeg = unhealthy",
        "dependency.ffmpeg.path = /usr/bin/ffmpeg",
        "dependency.ffmpeg.version = unavailable",
        "dependency.ffmpeg.error = library not loaded",
        "dependency.ffprobe = ok",
        "dependency.ffprobe.path = /usr/bin/ffprobe",
        "dependency.ffprobe.version = ffprobe version 7",
        "dependency.ffprobe.error = none",
    ];
    assert_eq!(lines, expected);
}

#[test]
fn lists_are_joined_with_commas() {
    let mut f = facts();
    f.health.missing = vec!["config".into(), "model".into()];
    let lines = status_lines(&f);
    assert!(lines.contains(&"missing = config, model".to_string()));
}

#[test]
fn dependency_states() {
    let mut s = facts().doctor.statuses[0].clone();
    assert_eq!(dependency_state(&s), "unhealthy");
    s.available = false;
    assert_eq!(dependency_state(&s), "missing");
    s.healthy = true;
    assert_eq!(dependency_state(&s), "ok");
}
