use envhive::env::{merge_by_scope_priority, path_eq, path_eq_in, style_of_separator, Envs, PathStyle, UseScope};

fn host_is_windows() -> bool {
    std::path::MAIN_SEPARATOR == '\\'
}

#[test]
fn path_eq_normalizes_separators_and_case() {
    if host_is_windows() {
        assert!(path_eq(r"C:\Users\a\tools\go\current\bin", "C:/Users/a/tools/go/current/bin"));
        assert!(path_eq(r"C:\Users\a\bin", r"c:\users\a\bin"));
        assert!(path_eq("C:/Users/a/bin/", r"C:\Users\a\bin"));
        assert!(!path_eq(r"C:\Users\a\bin", r"C:\Users\a\lib"));
    } else {
        assert!(path_eq("/usr/local/bin", "/usr/local/bin"));
        assert!(!path_eq("/usr/local/Bin", "/usr/local/bin"));
    }
}

#[test]
fn extend_dedups_path_equivalents() {
    let mut low = Envs::new();
    low.append_path(r"C:\Users\a\tools\go\current\bin");
    let mut high = Envs::new();
    high.prepend_path("C:/Users/a/tools/go/current/bin");
    low.extend(&high);
    if host_is_windows() {
        assert_eq!(low.paths.len(), 1, "分隔符不同的等价路径应合并为一条");
    } else {
        assert_eq!(low.paths.len(), 2);
    }
}

#[test]
fn windows_style_equivalence() {
    assert!(path_eq_in(PathStyle::Windows, r"C:\Users\a\tools\go\current\bin", "C:/Users/a/tools/go/current/bin"));
    assert!(path_eq_in(PathStyle::Windows, r"C:\Users\a\bin", r"c:\users\a\bin"));
    assert!(path_eq_in(PathStyle::Windows, "C:/Users/a/bin/", r"C:\Users\a\bin"));
    assert!(!path_eq_in(PathStyle::Windows, r"C:\Users\a\bin", r"C:\Users\a\lib"));
    assert!(!path_eq_in(PathStyle::Unix, "/usr/local/Bin", "/usr/local/bin"));
}

#[test]
fn prepend_and_append_skip_equivalents() {
    let mut e = Envs::with_style(PathStyle::Windows);
    e.prepend_path(r"C:\a");
    e.prepend_path(r"C:\b");
    e.prepend_path("c:/A/");
    e.append_path(r"C:\c");
    e.append_path(r"C:\C\");
    assert_eq!(e.paths, vec![r"C:\b".to_string(), r"C:\a".to_string(), r"C:\c".to_string()]);
    assert!(!e.is_empty());
    assert!(Envs::with_style(PathStyle::Unix).is_empty());
}

#[test]
fn extend_higher_scope_first_and_overrides() {
    let mut low = Envs::with_style(PathStyle::Unix);
    low.append_path("/low");
    low.append_path("/shared");
    low.var("A", "low");
    low.var("B", "low");
    let mut high = Envs::with_style(PathStyle::Unix);
    high.append_path("/high");
    high.append_path("/shared");
    high.var("A", "high");
    high.unset("C");
    low.extend(&high);
    assert_eq!(low.paths, vec!["/high".to_string(), "/shared".to_string(), "/low".to_string()]);
    assert_eq!(low.vars.get("A").cloned(), Some(Some("high".to_string())));
    assert_eq!(low.vars.get("B").cloned(), Some(Some("low".to_string())));
    assert_eq!(low.vars.get("C").cloned(), Some(None));
}

#[test]
fn path_var_and_map() {
    let mut e = Envs::with_style(PathStyle::Unix);
    e.append_path("/a");
    e.append_path("/b");
    e.var("JAVA_HOME", "/j");
    e.unset("GONE");
    assert_eq!(e.path_var("/usr/bin"), "/a:/b:/usr/bin");
    assert_eq!(e.path_var(""), "/a:/b");
    let m = e.as_map("/usr/bin");
    assert_eq!(m.get("JAVA_HOME").map(|s| s.as_str()), Some("/j"));
    assert_eq!(m.get("PATH").map(|s| s.as_str()), Some("/a:/b:/usr/bin"));
    assert_eq!(m.get("Path").map(|s| s.as_str()), Some("/a:/b:/usr/bin"));
    assert!(m.get("GONE").is_none());
    let w = Envs::with_style(PathStyle::Windows);
    assert!(w.as_map("").get("PATH").is_none());
    assert_eq!(w.path_var(r"C:\x"), r"C:\x");
}

#[test]
fn merge_scopes_in_priority_order() {
    let mut global = Envs::new();
    global.append_path("/g");
    global.var("K", "global");
    let mut project = Envs::new();
    project.append_path("/p");
    project.var("K", "project");
    let mut session = Envs::new();
    session.append_path("/s");
    let m = merge_by_scope_priority(&[global, project, session]);
    assert_eq!(m.paths, vec!["/s".to_string(), "/p".to_string(), "/g".to_string()]);
    assert_eq!(m.vars.get("K").cloned(), Some(Some("project".to_string())));
}

#[test]
fn scope_names() {
    assert_eq!(UseScope::Global.as_str(), "global");
    assert_eq!(UseScope::Project.as_str(), "project");
    assert_eq!(UseScope::Session.as_str(), "session");
}

#[test]
fn separator_decides_path_style() {
    assert_eq!(style_of_separator('\\'), PathStyle::Windows);
    assert_eq!(style_of_separator('/'), PathStyle::Unix);
}

#[test]
fn builder_calls_chain() {
    let mut e = Envs::with_style(PathStyle::Unix);
    e.var("A", "1").unset("B").prepend_path("/x").append_path("/y").prepend_path("/x");
    assert_eq!(e.paths, vec!["/x".to_string(), "/y".to_string()]);
    assert_eq!(e.vars.get("A").cloned(), Some(Some("1".to_string())));
    assert_eq!(e.vars.get("B").cloned(), Some(None));
}
