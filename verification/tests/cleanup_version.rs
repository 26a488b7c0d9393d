use lilaccaps::cleanup::{edit_distance, is_wholesale_rewrite};
use lilaccaps::version::{update_available, update_notice};

#[test]
fn cleanup_rejects_wholesale_rewrites_but_allows_conservative_edits() {
    assert!(!is_wholesale_rewrite("hello world", "Hello, world."));
    assert!(!is_wholesale_rewrite("今天天气很好", "今天天气真好。"));
    assert!(is_wholesale_rewrite("hello world", "完全不同内容"));
}

#[test]
fn edit_distance_counts_single_character_edits() {
    let chars = |s: &str| s.chars().collect::<Vec<_>>();
    assert_eq!(edit_distance(&chars("kitten"), &chars("sitting")), 3);
    assert_eq!(edit_distance(&chars(""), &chars("abc")), 3);
    assert_eq!(edit_distance(&chars("same"), &chars("same")), 0);
    assert!(!is_wholesale_rewrite("abc", "xyz"));
}

#[test]
fn recommends_only_strictly_newer_semantic_versions() {
    assert!(update_available("0.1.20", "0.1.21").expect("versions should parse"));
    assert!(update_available("0.1.20", "1.0.0").expect("versions should parse"));
    assert!(!update_available("0.1.20", "0.1.20").expect("versions should parse"));
    assert!(!update_available("0.1.20", "0.1.19").expect("versions should parse"));
}

#[test]
fn malformed_release_versions_do_not_compare() {
    assert!(update_available("0.1.20", "nightly").is_err());
}

#[test]
fn newer_release_notice_has_the_expected_version_and_command() {
    assert_eq!(
        update_notice("0.1.20", "0.1.21").expect("versions should parse"),
        Some(vec![
            "new_version = 0.1.21".to_string(),
            "recommendation = run `lilaccaps update`".to_string(),
        ])
    );
    assert_eq!(update_notice("0.1.20", "0.1.20").expect("versions should parse"), None);
}

#[test]
fn a_release_is_newer_than_its_prereleases() {
    assert!(update_available("1.0.0-rc.1", "1.0.0").unwrap());
    assert!(!update_available("1.0.0", "1.0.0-rc.1").unwrap());
    assert!(!update_available("1.2.3", "1.2.3").unwrap());
    assert!(update_available("1.9.9", "2.0.0-alpha").unwrap());
    assert!(!update_available("2.0.0-alpha", "1.9.9").unwrap());
}
