use galncelet::updater::{normalize_version, version_parts};
use galncelet::updater_order::{compare_versions, update_result_from_release};

#[test]
fn strips_release_tag_prefix() {
    assert_eq!(normalize_version("v1.2.3"), "1.2.3");
    assert_eq!(normalize_version("V1.2.3"), "1.2.3");
}

#[test]
fn compares_numeric_versions() {
    assert!(compare_versions("0.2.0", "0.1.9").is_gt());
    assert!(compare_versions("1.0", "1.0.0").is_eq());
    assert!(compare_versions("1.0.0", "1.0.1").is_lt());
}

#[test]
fn normalize_trims_and_strips_repeated_prefixes() {
    assert_eq!(normalize_version("  vv2.0 "), "2.0");
    assert_eq!(normalize_version("vV3"), "3");
    assert_eq!(normalize_version("Vv3"), "v3");
    assert_eq!(normalize_version(""), "");
}

#[test]
fn version_parts_reads_digit_runs() {
    assert_eq!(version_parts("1.2.3"), vec![1, 2, 3]);
    assert_eq!(version_parts("v10-beta.7"), vec![10, 7]);
    assert_eq!(version_parts("abc"), Vec::<u64>::new());
    assert_eq!(version_parts("99999999999999999999.1"), vec![0, 1]);
}

#[test]
fn version_order_is_antisymmetric_on_examples() {
    let pairs = [("1.2", "1.10"), ("2", "1.9.9"), ("1.0.0", "1"), ("0.0.1", "0.0.1")];
    for (a, b) in pairs {
        assert_eq!(compare_versions(a, b), compare_versions(b, a).reverse());
        assert!(compare_versions(a, a).is_eq());
    }
}

#[test]
fn update_due_only_for_a_later_release() {
    let r = update_result_from_release(
        "0.1.0".to_string(),
        "v0.2.0".to_string(),
        Some("Release".to_string()),
        "https://example.invalid/r".to_string(),
        None,
    );
    assert!(r.has_update);
    assert_eq!(r.latest_version.as_deref(), Some("0.2.0"));
    assert_eq!(r.latest_tag.as_deref(), Some("v0.2.0"));
    let same = update_result_from_release("0.2.0".to_string(), "v0.2".to_string(), None, String::new(), None);
    assert!(!same.has_update);
}

#[test]
fn update_request_identity() {
    assert_eq!(galncelet::updater::user_agent("0.1.0"), "Galncelet/0.1.0");
    assert_eq!(
        galncelet::updater::latest_release_url(),
        "https://api.github.com/repos/Sparrived/galncelet/releases/latest"
    );
}
