use envhive::cli::DownloadStage;
use envhive::plugin::{list_all_plugins, list_plugins, plugin_dir_name, plugin_entry, plugin_source, toggled_status, PluginDirEntry};
use envhive::env::Envs;
use envhive::error::EnvHiveErrorKind;
use envhive::plugin::{check_plugin_exists, check_plugin_name, remote_registry_target};
use envhive::tool::{
    bin_subdir, cache_usable, check_fetched, final_stage, find_tool, link_target_check, plugin_env_keys,
    tool_key, tool_not_found, versions_source, VersionsSource,
    cache_key, current_version_of, effective_distribution, effective_mirror_name, env_keys, is_active,
    DistributionInfo, EnvVarKind, MirrorCandidate, ToolDesc, ToolFacts, ToolInfo,
};
use envhive::usage::{is_expired, record_use, UsageStore};

fn cand(name: &str, from: &str, to: &str) -> MirrorCandidate {
    MirrorCandidate { name: name.into(), from: from.into(), to: to.into() }
}

fn dist(key: &str) -> DistributionInfo {
    DistributionInfo { key: key.into(), display: key.to_uppercase() }
}

#[test]
fn effective_mirror_name_prefers_declared_default() {
    let ms = vec![cand("官方", "https://o/", "https://o/"), cand("npmmirror", "https://o/", "https://m/")];
    assert_eq!(effective_mirror_name(&ms, Some("官方")).as_deref(), Some("官方"));
    assert_eq!(effective_mirror_name(&ms, Some("nope")).as_deref(), Some("npmmirror"));
    assert_eq!(effective_mirror_name(&ms, None).as_deref(), Some("npmmirror"));
    let only_official = vec![cand("官方", "https://o/", "https://o/")];
    assert_eq!(effective_mirror_name(&only_official, None), None);
    assert_eq!(effective_mirror_name(&[], Some("x")), None);
}

#[test]
fn effective_distribution_order() {
    let ds = vec![dist("tem"), dist("zulu")];
    assert_eq!(effective_distribution(&ds, Some("zulu"), Some("tem")).as_deref(), Some("tem"));
    assert_eq!(effective_distribution(&ds, Some("zulu"), Some("open")).as_deref(), Some("zulu"));
    assert_eq!(effective_distribution(&ds, None, None).as_deref(), Some("tem"));
    assert_eq!(effective_distribution(&[], Some("zulu"), Some("tem")), None);
}

#[test]
fn cache_keys() {
    assert_eq!(cache_key("java", Some("tem")), "java-tem");
    assert_eq!(cache_key("java", Some("")), "java");
    assert_eq!(cache_key("nodejs", None), "nodejs");
}

#[test]
fn activity_and_links() {
    assert!(is_active(Some("22.11.0"), true));
    assert!(!is_active(Some("22.11.0"), false));
    assert!(!is_active(None, true));
    assert_eq!(current_version_of("v-21.0.2").map(|v| v.0), Some("21.0.2".to_string()));
    assert!(current_version_of("21.0.2").is_none());
}

fn desc() -> ToolDesc {
    ToolDesc {
        name: "java".into(),
        display: "Java".into(),
        category: "lang".into(),
        homepage: "https://openjdk.org".into(),
        bin_suffix: "bin".into(),
        env_vars: vec![("JAVA_HOME".into(), EnvVarKind::RootDir)],
        distributions: vec![dist("tem")],
        default_distribution: None,
        mirrors: Vec::new(),
        default_mirror: None,
        icon_base64: None,
    }
}

#[test]
fn tool_env_keys() {
    let d = desc();
    let e = env_keys(&d, "/t/java/current/bin", "/t/java/current", true);
    assert_eq!(e.paths, vec!["/t/java/current/bin".to_string()]);
    assert_eq!(e.vars.get("JAVA_HOME").cloned(), Some(Some("/t/java/current".to_string())));
    let off = env_keys(&d, "/t/java/current/bin", "/t/java/current", false);
    assert!(off.is_empty());
}

#[test]
fn tool_info_from_desc() {
    let facts = ToolFacts {
        installed: vec!["21.0.2".into()],
        configured: Some("21.0.2".into()),
        version_dir_exists: true,
        link_resolves: false,
        available: None,
        bin_dir: "/t/java/current/bin".into(),
        icon: None,
    };
    let info = ToolInfo::from_desc(&desc(), facts);
    assert_eq!(info.name, "java");
    assert!(info.current.is_none());
    assert!(info.bin_path.is_none());
    assert_eq!(info.distributions.as_ref().map(|d| d.len()), Some(1));
    assert!(info.mirrors.is_none());
    let facts2 = ToolFacts {
        installed: vec!["21.0.2".into()],
        configured: Some("21.0.2".into()),
        version_dir_exists: true,
        link_resolves: true,
        available: Some(vec!["21.0.2".into(), "22".into()]),
        bin_dir: "/t/java/current/bin".into(),
        icon: Some("data:x".into()),
    };
    let info2 = ToolInfo::from_desc(&desc(), facts2);
    assert_eq!(info2.current.as_deref(), Some("21.0.2"));
    assert_eq!(info2.bin_path.as_deref(), Some("/t/java/current/bin"));
}

#[test]
fn plugin_listing() {
    assert_eq!(plugin_entry("nodejs.disabled"), ("nodejs".to_string(), false));
    assert_eq!(plugin_entry("nodejs"), ("nodejs".to_string(), true));
    let es = vec![
        PluginDirEntry { name: "nodejs".into(), is_dir: true, has_script: true },
        PluginDirEntry { name: "go.disabled".into(), is_dir: true, has_script: true },
        PluginDirEntry { name: "empty".into(), is_dir: true, has_script: false },
        PluginDirEntry { name: "file.txt".into(), is_dir: false, has_script: true },
    ];
    assert_eq!(list_plugins(&es), vec!["nodejs".to_string()]);
    assert_eq!(list_all_plugins(&es), vec![("nodejs".to_string(), true), ("go".to_string(), false)]);
    assert_eq!(plugin_source(true), "market");
    assert_eq!(plugin_source(false), "local");
}

#[test]
fn test_record_and_stats_path() {
    let mut store = UsageStore::new();
    record_use(&mut store, "nodejs", "22.11.0", Some("myapp"), 100);
    record_use(&mut store, "nodejs", "22.11.0", Some("myapp"), 200);
    record_use(&mut store, "nodejs", "20.9.0", None, 300);
    assert_eq!(store.versions.len(), 2);
    let rec = store.versions.get("nodejs@22.11.0").unwrap();
    assert_eq!(rec.count, 2);
    assert_eq!(rec.first_used_at, 100);
    assert_eq!(rec.last_used_at, 200);
    assert_eq!(rec.project_hits.get("myapp").copied(), Some(2));
    record_use(&mut store, "", "1", None, 400);
    assert_eq!(store.versions.len(), 2);
}

#[test]
fn cache_expiry() {
    assert!(!is_expired(0, -1, 1_000_000));
    assert!(is_expired(1000, 0, 1000));
    assert!(!is_expired(1000, 3600, 4599));
    assert!(is_expired(1000, 3600, 4600));
    assert!(!is_expired(i64::MIN, 10, i64::MIN + 5));
}

fn card(name: &str) -> ToolInfo {
    ToolInfo {
        name: name.into(),
        display: name.to_uppercase(),
        category: String::new(),
        homepage: String::new(),
        current: None,
        installed: vec![],
        available: None,
        bin_path: None,
        distributions: None,
        default_distribution: None,
        mirrors: None,
        default_mirror: None,
        icon: None,
    }
}

#[test]
fn looking_up_tools() {
    assert_eq!(tool_key("NodeJS"), "nodejs");
    let e = tool_not_found("Foo");
    assert_eq!(e.kind, EnvHiveErrorKind::ToolNotFound);
    assert_eq!(e.message, "工具 Foo 未注册（可在「插件」页添加 Lua 插件）");
    let t = find_tool(vec![card("java"), card("nodejs")], "NodeJS").ok().unwrap();
    assert_eq!(t.display, "NODEJS");
    let e = find_tool(vec![card("java")], "go").err().unwrap();
    assert_eq!(e.kind, EnvHiveErrorKind::ToolNotFound);
    assert_eq!(e.message, "工具 go 未注册");
}

#[test]
fn version_cache_decisions() {
    assert!(cache_usable(false, Some(100), 3600, 200));
    assert!(!cache_usable(true, Some(100), 3600, 200));
    assert!(!cache_usable(false, None, 3600, 200));
    assert!(!cache_usable(false, Some(100), 100, 200));
    assert!(cache_usable(false, Some(0), -1, 1_000_000));
    assert!(!cache_usable(false, Some(100), 0, 100));
    assert!(check_fetched("Node.js", 3).is_ok());
    let e = check_fetched("Node.js", 0).err().unwrap();
    assert_eq!(e.kind, EnvHiveErrorKind::Network);
    assert_eq!(e.message, "Node.js 版本列表为空（检查网络或镜像源）");
    assert_eq!(final_stage(None), Some(DownloadStage::Done));
    assert_eq!(final_stage(Some(EnvHiveErrorKind::Cancelled)), None);
    assert_eq!(final_stage(Some(EnvHiveErrorKind::Network)), Some(DownloadStage::Failed));
}

#[test]
fn plugin_environment() {
    let vars = vec![("JAVA_HOME".to_string(), "{root}".to_string()), ("LIB".to_string(), "{root}/lib:{root}".to_string())];
    let mut hook = Envs::new();
    hook.var("FROM_HOOK", "1");
    hook.prepend_path("/opt/java/current/bin");
    let r = plugin_env_keys(true, hook, "/opt/java/current/bin", "/opt/java/current", &vars);
    assert_eq!(r.paths, vec!["/opt/java/current/bin"]);
    assert_eq!(r.vars.get("JAVA_HOME"), Some(&Some("/opt/java/current".to_string())));
    assert_eq!(r.vars.get("LIB"), Some(&Some("/opt/java/current/lib:/opt/java/current".to_string())));
    assert_eq!(r.vars.get("FROM_HOOK"), Some(&Some("1".to_string())));
    let off = plugin_env_keys(false, Envs::new(), "/b", "/r", &vars);
    assert!(off.is_empty());
    assert_eq!(bin_subdir(""), None);
    assert_eq!(bin_subdir("/bin").as_deref(), Some("bin"));
    assert_eq!(bin_subdir("bin").as_deref(), Some("bin"));
    assert!(link_target_check("java", "21", true).is_ok());
    let e = link_target_check("java", "21", false).err().unwrap();
    assert_eq!(e.kind, EnvHiveErrorKind::NotInstalled);
    assert_eq!(e.message, "java 21 未安装");
}

#[test]
fn plugin_names_and_market_address() {
    assert!(check_plugin_name("nodejs").is_ok());
    let e = check_plugin_name("../x").err().unwrap();
    assert_eq!(e.kind, EnvHiveErrorKind::Config);
    assert_eq!(e.message, "非法 工具 名称: \"../x\"");
    let e = check_plugin_exists("go", false).err().unwrap();
    assert_eq!(e.kind, EnvHiveErrorKind::ToolNotFound);
    assert_eq!(e.message, "Lua 插件 go 不存在（新建插件请用「新建插件」）");
    assert!(check_plugin_exists("go", true).is_ok());
    let cfg = vec!["https://a.example/registry".to_string()];
    assert_eq!(remote_registry_target(Some(" https://b.example/r// "), &cfg).unwrap(), "https://b.example/r");
    assert_eq!(remote_registry_target(Some("  "), &cfg).unwrap(), "https://a.example/registry");
    assert_eq!(remote_registry_target(None, &cfg).unwrap(), "https://a.example/registry");
    let e = remote_registry_target(None, &vec![]).err().unwrap();
    assert_eq!(e.message, "未配置远程插件仓库地址");
    let e = remote_registry_target(Some("ftp://x"), &cfg).err().unwrap();
    assert_eq!(e.kind, EnvHiveErrorKind::Config);
    assert_eq!(e.message, "插件仓库地址需以 http:// 或 https:// 开头");
}

#[test]
fn plugin_directory_names_round_trip() {
    for name in ["nodejs", "java", "my.plugin"] {
        for enabled in [true, false] {
            let dir = plugin_dir_name(name, enabled);
            assert_eq!(plugin_entry(&dir), (name.to_string(), enabled));
        }
    }
    assert_eq!(plugin_dir_name("go", false), "go.disabled");
    assert_eq!(toggled_status("go", true), "插件 go 已启用");
    assert_eq!(toggled_status("go", false), "插件 go 已禁用");
}

#[test]
fn bad_names_are_quoted_as_debug_output() {
    for name in ["../x", "a/b", "", "名\u{200b}/", "e\u{301}/", "tab\t/"] {
        let e = check_plugin_name(name).unwrap_err();
        assert_eq!(e.message, format!("非法 工具 名称: {:?}", name));
    }
}

#[test]
fn version_list_source_decisions() {
    assert_eq!(versions_source(false, Some(100), Some(100), 3600, 200), VersionsSource::Memory);
    assert_eq!(versions_source(false, Some(0), Some(150), 100, 200), VersionsSource::File);
    assert_eq!(versions_source(false, None, None, 3600, 200), VersionsSource::Fetch);
    assert_eq!(versions_source(true, Some(199), Some(199), 3600, 200), VersionsSource::Fetch);
    assert_eq!(versions_source(false, Some(199), None, 0, 200), VersionsSource::Fetch);
    assert_eq!(versions_source(false, Some(0), None, -1, 1_000_000), VersionsSource::Memory);
}
