use envhive::error::EnvHiveErrorKind;
use envhive::plugin_def::{build_plugin_def, RawDistribution, RawMirror, RawToolTable, ScriptGlobals};

fn s(v: &str) -> Option<String> {
    Some(v.to_string())
}

fn table() -> RawToolTable {
    RawToolTable {
        display: None,
        category: None,
        homepage: None,
        version: None,
        verify_bin: None,
        verify_arg: None,
        bin_suffix: None,
        root_hint: None,
        env_vars: Vec::new(),
        distributions: Vec::new(),
        default_distribution: None,
        mirrors: Vec::new(),
        default_mirror: None,
        icon_base64: None,
    }
}

fn globals(tool: Option<RawToolTable>, available: bool, pre_install: bool) -> ScriptGlobals {
    ScriptGlobals { tool, has_available: available, has_pre_install: pre_install }
}

#[test]
fn plugin_def_takes_tool_fields() {
    let mut t = table();
    t.display = s("Demo");
    t.category = s("language");
    t.homepage = s("https://example.com");
    t.verify_bin = s("demo");
    t.verify_arg = s("--version");
    t.bin_suffix = s("");
    t.env_vars = vec![("DEMO_HOME".to_string(), "{root}".to_string())];
    let def = build_plugin_def("demo", "TOOL = {}", "/data", "/data/plugins/demo/lib", globals(Some(t), true, true)).unwrap();
    assert_eq!(def.name, "demo");
    assert_eq!(def.display, "Demo");
    assert_eq!(def.category, "language");
    assert_eq!(def.homepage, "https://example.com");
    assert_eq!(def.verify_bin, "demo");
    assert_eq!(def.verify_arg, "--version");
    assert_eq!(def.bin_suffix, "");
    assert_eq!(def.version, None);
    assert_eq!(def.env_vars, vec![("DEMO_HOME".to_string(), "{root}".to_string())]);
    assert!(def.distributions.is_empty());
    assert_eq!(def.default_distribution, None);
    assert!(def.mirrors.is_empty());
    assert_eq!(def.lib_dir, "/data/plugins/demo/lib");
    assert_eq!(def.script, "TOOL = {}");
    assert_eq!(def.data_root, "/data");
}

#[test]
fn plugin_def_display_falls_back_to_name() {
    let mut t = table();
    t.display = s("");
    let def = build_plugin_def("tomcat", "", "/d", "/d/l", globals(Some(t), true, true)).unwrap();
    assert_eq!(def.display, "tomcat");
    assert_eq!(def.verify_bin, "");
}

#[test]
fn plugin_def_version_and_icon_need_content() {
    let mut t = table();
    t.version = s("2.1.0");
    t.icon_base64 = s("  ");
    let def = build_plugin_def("demo", "", "/d", "/d/l", globals(Some(t), true, true)).unwrap();
    assert_eq!(def.version.as_deref(), Some("2.1.0"));
    assert_eq!(def.icon_base64, None);
    let mut t2 = table();
    t2.version = s("");
    t2.icon_base64 = s("data:image/png;base64,AAAA");
    let def2 = build_plugin_def("demo", "", "/d", "/d/l", globals(Some(t2), true, true)).unwrap();
    assert_eq!(def2.version, None);
    assert_eq!(def2.icon_base64.as_deref(), Some("data:image/png;base64,AAAA"));
}

#[test]
fn plugin_def_refuses_missing_table_and_hooks() {
    let e = build_plugin_def("bad2", "x = 1", "/d", "/d/l", globals(None, true, true)).unwrap_err();
    assert_eq!(e.kind, EnvHiveErrorKind::Config);
    assert_eq!(e.message, "Lua 插件 bad2 缺少 工具 元信息表");
    let e = build_plugin_def("x", "", "/d", "/d/l", globals(Some(table()), false, true)).unwrap_err();
    assert_eq!(e.kind, EnvHiveErrorKind::Config);
    assert!(e.message.contains("available()"));
    assert_eq!(e.message, "Lua 插件 x 缺少必需的 available() hook");
    let e = build_plugin_def("y", "", "/d", "/d/l", globals(Some(table()), true, false)).unwrap_err();
    assert!(e.message.contains("pre_install()"));
    assert_eq!(e.message, "Lua 插件 y 缺少必需的 pre_install() hook");
    let e = build_plugin_def("z", "", "/d", "/d/l", globals(None, false, false)).unwrap_err();
    assert_eq!(e.message, "Lua 插件 z 缺少 工具 元信息表");
}

fn dist(key: Option<String>, display: Option<String>, default: Option<bool>) -> RawDistribution {
    RawDistribution { key, display, default }
}

#[test]
fn plugin_def_distributions_and_default() {
    let mut t = table();
    t.distributions = vec![
        dist(s("open"), s("OpenJDK (Eclipse)"), Some(true)),
        dist(s("tem"), s("Eclipse Temurin"), None),
        dist(s(""), s("no key"), Some(false)),
        dist(None, s("missing key"), None),
        dist(s("zulu"), None, None),
    ];
    let def = build_plugin_def("java", "", "/d", "/d/l", globals(Some(t), true, true)).unwrap();
    assert_eq!(def.distributions.len(), 3);
    assert_eq!(def.distributions[0].key, "open");
    assert_eq!(def.distributions[1].display, "Eclipse Temurin");
    assert_eq!(def.distributions[2].key, "zulu");
    assert_eq!(def.distributions[2].display, "zulu");
    assert_eq!(def.default_distribution.as_deref(), Some("open"));
}

#[test]
fn plugin_def_declared_default_distribution_wins() {
    let mut t = table();
    t.distributions = vec![dist(s("open"), None, Some(true)), dist(s("tem"), None, Some(true))];
    t.default_distribution = s("tem");
    let def = build_plugin_def("java", "", "/d", "/d/l", globals(Some(t), true, true)).unwrap();
    assert_eq!(def.default_distribution.as_deref(), Some("tem"));
    let mut t2 = table();
    t2.distributions = vec![dist(s("open"), None, Some(false)), dist(None, None, Some(true)), dist(s("tem"), None, Some(true))];
    let def2 = build_plugin_def("java", "", "/d", "/d/l", globals(Some(t2), true, true)).unwrap();
    assert_eq!(def2.default_distribution, None);
}

#[test]
fn plugin_def_mirrors_need_all_fields() {
    let mut t = table();
    t.mirrors = vec![
        RawMirror { name: s("npmmirror"), from: s("https://nodejs.org/dist/"), to: s("https://npmmirror.com/mirrors/node/") },
        RawMirror { name: s("broken"), from: None, to: s("https://x/") },
        RawMirror { name: s(""), from: s("https://a/"), to: s("https://b/") },
        RawMirror { name: s("华为云"), from: s("https://nodejs.org/dist/"), to: s("https://mirrors.huaweicloud.com/nodejs/") },
    ];
    t.default_mirror = s("npmmirror");
    let def = build_plugin_def("nodejs", "", "/d", "/d/l", globals(Some(t), true, true)).unwrap();
    assert_eq!(def.mirrors.len(), 2);
    assert_eq!(def.mirrors[0].from, "https://nodejs.org/dist/");
    assert_eq!(def.mirrors[0].to, "https://npmmirror.com/mirrors/node/");
    assert_eq!(def.mirrors[1].name, "华为云");
    assert_eq!(def.default_mirror.as_deref(), Some("npmmirror"));
}
