use envhive::env::{Envs, PathStyle};
use envhive::overview::{
    filter_log_level, home_overview, log_file_infos, log_files, pick_log, preview_env, tail_start, truncated_log, LogEntry, ToolEnvSource,
};
use envhive::strmap::StrMap;
use envhive::tool::{is_current_version, sort_installed, switch_check, switch_result, InstalledInfo};
use envhive::usage::{record_use, stats, ToolInstalls, UsageStore};

#[test]
fn logs_newest_first() {
    let es = vec![
        LogEntry { name: "envhive.log.2024-01-01".into(), mtime: 10, size: 100 },
        LogEntry { name: "other.txt".into(), mtime: 99, size: 1 },
        LogEntry { name: "envhive.log".into(), mtime: 30, size: 2048 },
        LogEntry { name: "envhive.log.2024-01-02".into(), mtime: 10, size: 100 },
    ];
    let files = log_files(&es);
    assert_eq!(files, vec!["envhive.log".to_string(), "envhive.log.2024-01-01".to_string(), "envhive.log.2024-01-02".to_string()]);
    assert_eq!(pick_log(&files, None).as_deref(), Some("envhive.log"));
    assert_eq!(pick_log(&files, Some("")).as_deref(), Some("envhive.log"));
    assert_eq!(pick_log(&files, Some("envhive.log.2024-01-02")).as_deref(), Some("envhive.log.2024-01-02"));
    assert_eq!(pick_log(&files, Some("nope")), None);
    assert_eq!(tail_start(500 * 1024, 300 * 1024), Some(200 * 1024));
    assert_eq!(tail_start(10, 300 * 1024), None);
    assert_eq!(truncated_log(512000, "tail"), "…（截断，共 500KB）\ntail");
}

#[test]
fn log_file_list_with_sizes() {
    let es = vec![
        LogEntry { name: "envhive.log.1".into(), mtime: 5, size: 7 },
        LogEntry { name: "notes".into(), mtime: 50, size: 9 },
        LogEntry { name: "envhive.log".into(), mtime: 40, size: 1234 },
    ];
    let infos = log_file_infos(&es);
    assert_eq!(infos.len(), 2);
    assert_eq!(infos[0].name, "envhive.log");
    assert_eq!(infos[0].size, 1234);
    assert_eq!(infos[0].modified_at, 40);
    assert_eq!(infos[1].name, "envhive.log.1");
    assert_eq!(infos[1].size, 7);
    assert_eq!(infos[1].modified_at, 5);
    assert!(log_file_infos(&[]).is_empty());
}

#[test]
fn log_levels() {
    let raw = "a INFO x\nb WARN y\nERROR z\nplain\nc [x ERROR] q\n";
    assert_eq!(filter_log_level(raw, None), raw);
    assert_eq!(filter_log_level(raw, Some(" all ")), raw);
    assert_eq!(filter_log_level(raw, Some("warn")), "b WARN y\nERROR z\nc [x ERROR] q");
    assert_eq!(filter_log_level(raw, Some("ERROR")), "ERROR z\nc [x ERROR] q");
    assert_eq!(filter_log_level(raw, Some("info")), "a INFO x\nb WARN y\nERROR z\nc [x ERROR] q");
    assert_eq!(filter_log_level(raw, Some("debug")), "a INFO x\nb WARN y\nERROR z\nplain\nc [x ERROR] q");
}

#[test]
fn preview_script() {
    let mut e = Envs::with_style(PathStyle::Unix);
    e.append_path("/a");
    e.append_path("/b");
    e.var("ZED", "1 \"x\"");
    e.unset("ALPHA");
    let p = preview_env(&e);
    assert_eq!(p.path_entries, vec!["/a".to_string(), "/b".to_string()]);
    assert_eq!(p.vars[0].key, "ALPHA");
    assert!(p.vars[0].value.is_none());
    assert_eq!(p.vars[1].source, "global");
    assert_eq!(p.export_script, "export PATH=\"/a:/b:${PATH:+$PATH}\"\nunset ALPHA\nexport ZED=\"1 \\\"x\\\"\"");
}

#[test]
fn home_rows_sorted() {
    let mut java = Envs::with_style(PathStyle::Unix);
    java.append_path("/j/bin");
    java.var("JAVA_HOME", "/j");
    java.var("Path", "ignored");
    let mut node = Envs::with_style(PathStyle::Unix);
    node.append_path("/n/bin");
    let tools = vec![
        ToolEnvSource { name: "java".into(), display: "Java".into(), category: "lang".into(), version: Some("21".into()), active: true, envs: java, icon: None },
        ToolEnvSource { name: "nodejs".into(), display: "Node".into(), category: "lang".into(), version: None, active: false, envs: node, icon: None },
    ];
    let mut g = StrMap::new();
    g.insert("EDITOR".into(), "vim".into());
    g.insert("A_VAR".into(), "1".into());
    let h = home_overview(&tools, &g);
    assert_eq!(h.tools.len(), 2);
    assert_eq!(h.tools[0].vars.len(), 1);
    assert_eq!(h.tools[0].vars[0].key, "JAVA_HOME");
    let keys: Vec<(String, String)> = h.merged.iter().map(|r| (r.key.clone(), r.source.clone())).collect();
    assert_eq!(
        keys,
        vec![
            ("PATH".to_string(), "Java".to_string()),
            ("PATH".to_string(), "Node".to_string()),
            ("A_VAR".to_string(), "全局配置".to_string()),
            ("EDITOR".to_string(), "全局配置".to_string()),
            ("JAVA_HOME".to_string(), "Java".to_string()),
        ]
    );
}

#[test]
fn usage_statistics() {
    let mut store = UsageStore::new();
    record_use(&mut store, "nodejs", "22.11.0", Some("a"), 100);
    record_use(&mut store, "nodejs", "22.11.0", Some("b"), 200);
    record_use(&mut store, "nodejs", "22.11.0", Some("b"), 300);
    record_use(&mut store, "nodejs", "20.9.0", None, 400);
    record_use(&mut store, "go", "1.22.0", None, 50);
    record_use(&mut store, "removed", "1.0", None, 50);
    let tools = vec![
        ToolInstalls { name: "go".into(), display: "Go".into(), icon: None, current: None, versions: vec![("1.22.0".into(), 10)] },
        ToolInstalls {
            name: "nodejs".into(),
            display: "Node".into(),
            icon: None,
            current: Some("20.9.0".into()),
            versions: vec![("22.11.0".into(), 100), ("20.9.0".into(), 50), ("18.0.0".into(), 7)],
        },
    ];
    let s = stats(&store, &tools, 400 + 86400 * 3);
    assert_eq!(s.total_versions, 4);
    assert_eq!(s.total_disk_bytes, 167);
    assert_eq!(s.tool_usage[0].tool, "nodejs");
    assert_eq!(s.tool_usage[0].total_count, 4);
    assert_eq!(s.tool_usage[0].disk_bytes, 157);
    let vs: Vec<&str> = s.tool_usage[0].versions.iter().map(|v| v.version.as_str()).collect();
    assert_eq!(vs, vec!["20.9.0", "22.11.0", "18.0.0"]);
    assert!(s.tool_usage[0].versions[0].is_current);
    assert_eq!(s.tool_usage[0].versions[0].last_used_days_ago, Some(3));
    assert_eq!(s.tool_usage[0].versions[1].projects[0].project, "b");
    assert_eq!(s.tool_usage[0].versions[1].projects[0].hits, 2);
    assert_eq!(s.tool_usage[0].versions[2].count, 0);
    assert!(s.tool_usage[0].versions[2].last_used_days_ago.is_none());
    assert_eq!(s.tool_usage[1].tool, "go");
}

#[test]
fn installed_listing_and_switch() {
    let info = |d: &str, v: &str| InstalledInfo { tool: d.to_lowercase(), display: d.into(), version: v.into(), path: String::new(), is_current: false };
    let list = vec![info("Node", "22.1.0"), info("Go", "1.22"), info("Node", "18.0.0")];
    let sorted = sort_installed(&list);
    let order: Vec<(String, String)> = sorted.iter().map(|i| (i.display.clone(), i.version.clone())).collect();
    assert_eq!(
        order,
        vec![("Go".into(), "1.22".into()), ("Node".into(), "18.0.0".into()), ("Node".into(), "22.1.0".into())]
    );
    assert!(is_current_version(true, Some("18.0.0"), "18.0.0"));
    assert!(!is_current_version(false, Some("18.0.0"), "18.0.0"));
    assert!(switch_check("Node.js", "22", true).is_ok());
    assert_eq!(switch_check("Node.js", "22", false).unwrap_err().message, "Node.js 22 尚未安装，请先安装再切换");
    assert_eq!(switch_result("nodejs".into(), "22".into(), "/b".into()).message, "切换成功，新终端中生效");
}
