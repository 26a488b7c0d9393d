use lilaccaps::release::{
    default_github_repo, latest_release_url, normalize_github_repo, release_from_payload,
};

#[test]
fn normalizes_short_repo() {
    let repo = normalize_github_repo("owner/name").expect("short repo should normalize");
    assert_eq!(repo, "owner/name");
}

#[test]
fn normalizes_https_remote() {
    let repo = normalize_github_repo("https://github.com/owner/name.git")
        .expect("https remote should normalize");
    assert_eq!(repo, "owner/name");
}

#[test]
fn normalizes_ssh_remote() {
    let repo = normalize_github_repo("git@github.com:owner/name.git")
        .expect("ssh remote should normalize");
    assert_eq!(repo, "owner/name");
}

#[test]
fn package_repository_has_stable_update_fallback() {
    assert_eq!(default_github_repo(), "zhuisDEV/lilaccaps");
}

#[test]
fn rejects_malformed_repo_identifiers() {
    assert!(normalize_github_repo("owner/").is_err());
    assert!(normalize_github_repo("owner/name/extra").is_err());
    assert!(normalize_github_repo("owner/name?token=secret").is_err());
    assert!(normalize_github_repo("owner/..").is_err());
}

#[test]
fn unsupported_remote_host_is_reported() {
    let error = normalize_github_repo("https://gitlab.com/owner/name").unwrap_err();
    assert_eq!(error, "unsupported GitHub remote URL: https://gitlab.com/owner/name");
    let error = normalize_github_repo("owner").unwrap_err();
    assert_eq!(error, "invalid GitHub repo identifier: owner");
}

#[test]
fn drafts_and_prereleases_are_not_offered() {
    assert!(release_from_payload("v1.2.0", true, false).is_none());
    assert!(release_from_payload("v1.2.0", false, true).is_none());
    let release = release_from_payload("v1.2.0", false, false).expect("published release");
    assert_eq!(release.tag_name, "v1.2.0");
    assert_eq!(release.version, "1.2.0");
}

#[test]
fn release_url_names_the_repository() {
    assert_eq!(
        latest_release_url("owner/name"),
        "https://api.github.com/repos/owner/name/releases/latest"
    );
}
