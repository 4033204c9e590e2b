use envhive::error::EnvHiveErrorKind;
use envhive::resolver::{
    latest, resolve, resolve_installed, resolve_versions_meta, search_versions, sorted, AvailableVersion,
    ResolveTag,
};

#[test]
fn test_resolve_lts_meta() {
    let vers = vec![
        AvailableVersion { version: "21.0.10+7".into(), lts: true, labels: vec!["lts".into()] },
        AvailableVersion { version: "22.0.1+1".into(), lts: false, labels: vec![] },
        AvailableVersion { version: "17.0.9+9".into(), lts: true, labels: vec!["lts".into()] },
    ];
    assert_eq!(resolve_versions_meta(&vers, "lts").unwrap(), "21.0.10+7");
    assert_eq!(resolve_versions_meta(&vers, "latest").unwrap(), "22.0.1+1");
    assert_eq!(resolve_versions_meta(&vers, "17").unwrap(), "17.0.9+9");
}

fn strings(v: &[&str]) -> Vec<String> {
    v.iter().map(|s| s.to_string()).collect()
}

#[test]
fn resolve_exact_prefix_tag_contains() {
    let vs = strings(&["20.9.0", "22.11.0", "22.2.0", "23.0.0-rc1", "18.20.4-lts"]);
    assert_eq!(resolve(&vs, "v22.2.0").unwrap(), "22.2.0");
    assert_eq!(resolve(&vs, "22").unwrap(), "22.11.0");
    assert_eq!(resolve(&vs, "latest").unwrap(), "23.0.0-rc1");
    assert_eq!(resolve(&vs, "stable").unwrap(), "22.11.0");
    assert_eq!(resolve(&vs, "LTS").unwrap(), "18.20.4-lts");
    assert_eq!(resolve(&vs, "11.0").unwrap(), "22.11.0");
}

#[test]
fn resolve_errors() {
    let empty: Vec<String> = Vec::new();
    assert_eq!(resolve(&empty, "1").unwrap_err().kind, EnvHiveErrorKind::VersionNotFound);
    let vs = strings(&["1.0.0", "2.0.0"]);
    let e = resolve(&vs, "3.9").unwrap_err();
    assert_eq!(e.kind, EnvHiveErrorKind::VersionResolve);
    assert!(e.message.contains("\"3.9\""));
    let e2 = resolve(&vs, "lts").unwrap_err();
    assert_eq!(e2.kind, EnvHiveErrorKind::VersionResolve);
    assert_eq!(e2.message, "没有匹配标签 \"lts\" 的版本");
}

#[test]
fn resolve_meta_stable_uses_labels() {
    let vers = vec![
        AvailableVersion { version: "3.0.0-beta".into(), lts: false, labels: vec!["Stable".into()] },
        AvailableVersion { version: "2.9.0".into(), lts: false, labels: vec![] },
    ];
    assert_eq!(resolve_versions_meta(&vers, "stable").unwrap(), "3.0.0-beta");
}

#[test]
fn latest_and_sorted() {
    let vs = strings(&["1.10", "1.9", "2.0-rc1"]);
    assert_eq!(latest(&vs), Some("2.0-rc1"));
    assert_eq!(sorted(&vs), strings(&["1.9", "1.10", "2.0-rc1"]));
    let empty: Vec<String> = Vec::new();
    assert_eq!(latest(&empty), None);
}

#[test]
fn resolve_tag_from_str() {
    assert_eq!(ResolveTag::from_str(" Latest "), Some(ResolveTag::Latest));
    assert_eq!(ResolveTag::from_str("LTS"), Some(ResolveTag::Lts));
    assert_eq!(ResolveTag::from_str("stable"), Some(ResolveTag::Stable));
    assert_eq!(ResolveTag::from_str("beta"), None);
}

#[test]
fn installed_versions_answer_first() {
    let inst = strings(&["20.9.0", "22.11.0"]);
    assert_eq!(resolve_installed(&inst, "22").as_deref(), Some("22.11.0"));
    assert_eq!(resolve_installed(&inst, "lts"), None);
    let none: Vec<String> = Vec::new();
    assert_eq!(resolve_installed(&none, "22"), None);
}

#[test]
fn search_filters_and_sorts() {
    let vers = vec![
        AvailableVersion { version: "22.1.0".into(), lts: false, labels: vec![] },
        AvailableVersion { version: "20.10.0".into(), lts: true, labels: vec!["LTS".into(), "Iron".into()] },
        AvailableVersion { version: "20.9.0".into(), lts: true, labels: vec!["Iron".into()] },
        AvailableVersion { version: "21.0.0-RC1".into(), lts: false, labels: vec![] },
    ];
    assert_eq!(search_versions(&vers, None), vec!["20.9.0", "20.10.0", "21.0.0-RC1", "22.1.0"]);
    assert_eq!(search_versions(&vers, Some("  ")), vec!["20.9.0", "20.10.0", "21.0.0-RC1", "22.1.0"]);
    assert_eq!(search_versions(&vers, Some(" iron ")), vec!["20.9.0", "20.10.0"]);
    assert_eq!(search_versions(&vers, Some("lts")), vec!["20.10.0"]);
    assert_eq!(search_versions(&vers, Some("rc")), vec!["21.0.0-RC1"]);
    assert_eq!(search_versions(&vers, Some("20.")), vec!["20.9.0", "20.10.0"]);
    assert!(search_versions(&vers, Some("zzz")).is_empty());
}

#[test]
fn sorting_reordered_lists_agrees_position_by_position() {
    let a = strings(&["21.0.9+7", "1.10", "2.0-rc1", "21.0.9+9", "1.9"]);
    let b = strings(&["1.9", "21.0.9+9", "2.0-rc1", "1.10", "21.0.9+7"]);
    let x = sorted(&a);
    let y = sorted(&b);
    assert_eq!(x.len(), y.len());
    for i in 0..x.len() {
        assert_eq!(envhive::version::compare_versions(&x[i], &y[i]), std::cmp::Ordering::Equal);
    }
    assert_eq!(x, strings(&["1.9", "1.10", "2.0-rc1", "21.0.9+7", "21.0.9+9"]));
    assert_eq!(y, strings(&["1.9", "1.10", "2.0-rc1", "21.0.9+9", "21.0.9+7"]));
}
