use std::cmp::Ordering;

use envhive::tool::current_version_of;
use envhive::version::{compare_versions, is_prefix_match, sort_versions, Version};

#[test]
fn test_compare() {
    assert!(compare_versions("1.9", "1.10") == Ordering::Less);
    assert!(compare_versions("1.10", "2.0") == Ordering::Less);
    assert!(compare_versions("2.0-rc1", "2.0") == Ordering::Less);
    assert!(compare_versions("2.0-rc1", "2.0-rc2") == Ordering::Less);
    assert!(compare_versions("21.5.1", "21.5") == Ordering::Greater);
    assert!(compare_versions("2024.10.12", "2024.2.1") == Ordering::Greater);
    assert!(compare_versions("22.11.0", "22.11.0") == Ordering::Equal);
    assert!(compare_versions("1.84.0", "1.84.1") == Ordering::Less);
}

#[test]
fn test_prefix() {
    assert!(is_prefix_match("21", "21.5.1"));
    assert!(is_prefix_match("21", "21"));
    assert!(!is_prefix_match("21", "2.1.5"));
    assert!(is_prefix_match("1.2", "1.2.3"));
}

#[test]
fn test_build_metadata_ignored() {
    assert!(compare_versions("21.0.10+7", "21.0.9+9") == Ordering::Greater);
    assert!(compare_versions("21.0.9+9", "21.0.10+7") == Ordering::Less);
    assert!(compare_versions("21.0.10+7", "21.0.10+7") == Ordering::Equal);
    assert!(compare_versions("11.0.2+9", "11.0.25+9") == Ordering::Less);
}

#[test]
fn compare_is_antisymmetric_on_samples() {
    let samples = ["1.9", "1.10", "2.0-rc1", "2.0", "v2.0", "21.5", "21.5.1", "1.2a", "1_2_3", "2024.2.1"];
    for a in samples.iter() {
        assert_eq!(compare_versions(a, a), Ordering::Equal);
        for b in samples.iter() {
            assert_eq!(compare_versions(a, b), compare_versions(b, a).reverse());
        }
    }
}

#[test]
fn compare_leading_v_and_separators() {
    assert_eq!(compare_versions("v1.2.3", "1.2.3"), Ordering::Equal);
    assert_eq!(compare_versions("1_2_3", "1.2.3"), Ordering::Equal);
    assert_eq!(compare_versions("1.2", "1.2a"), Ordering::Less);
    assert_eq!(compare_versions("1.2.x", "1.2.3"), Ordering::Greater);
}

#[test]
fn prefix_needs_a_separator_after_the_query() {
    assert!(is_prefix_match("2.0", "2.0-rc1"));
    assert!(!is_prefix_match("", "1.0"));
    assert!(!is_prefix_match("1.2", "1.20"));
    assert!(is_prefix_match("v21", "21.0.1"));
}

#[test]
fn sort_versions_orders_ascending() {
    let mut v: Vec<String> = vec!["2.0".into(), "1.10".into(), "2.0-rc1".into(), "1.9".into()];
    sort_versions(&mut v);
    assert_eq!(v, vec!["1.9".to_string(), "1.10".to_string(), "2.0-rc1".to_string(), "2.0".to_string()]);
}

#[test]
fn version_dir_name_and_order() {
    let v = Version::new("22.11.0".to_string());
    assert_eq!(v.as_str(), "22.11.0");
    assert_eq!(v.dir_name(), "v-22.11.0");
    assert_eq!(Version::new("1.9".to_string()).compare(&Version::new("1.10".to_string())), Ordering::Less);
}

#[test]
fn version_directory_names_it_back() {
    for s in ["22.11.0", "21.0.5+11", "go1.22", ""] {
        let v = Version::new(s.to_string());
        let back = current_version_of(&v.dir_name()).expect("a version directory");
        assert_eq!(back.as_str(), s);
    }
    assert!(current_version_of("22.11.0").is_none());
}

#[test]
fn sorting_keeps_equal_versions_in_order() {
    let mut v: Vec<String> = ["2.0", "1.10", "1.9", "2.0-rc1"].iter().map(|s| s.to_string()).collect();
    sort_versions(&mut v);
    assert_eq!(v, vec!["1.9", "1.10", "2.0-rc1", "2.0"]);
    let mut w: Vec<String> = ["21.0.9+9", "17", "21.0.9+7"].iter().map(|s| s.to_string()).collect();
    sort_versions(&mut w);
    assert_eq!(w, vec!["17", "21.0.9+9", "21.0.9+7"]);
    let mut x: Vec<String> = ["21.0.9+7", "21.0.9+9"].iter().map(|s| s.to_string()).collect();
    sort_versions(&mut x);
    assert_eq!(x, vec!["21.0.9+7", "21.0.9+9"]);
}
