use envhive::plugin::PluginInfo;
use envhive::settings::RegistryEntry;
use envhive::tui_tabs::SettingRowKind;
use envhive::tui_rows::{
    local_plugin_row, local_version_of, market_row, market_state, market_title, mirror_option_row, pad_right,
    preset_row, progress_task, registry_tool_row, setting_row, sdk_tool_row, stats_tool_row, stats_version_row, task_tag,
    tool_row, version_mark, version_row, MarketState, TaskState, VersionMark,
};

fn plugin(name: &str, version: Option<&str>, enabled: bool) -> PluginInfo {
    PluginInfo {
        name: name.into(),
        display: name.to_uppercase(),
        category: "language".into(),
        homepage: String::new(),
        provider: "lua".into(),
        version: version.map(String::from),
        installed_versions: vec![],
        source: "local".into(),
        distributions: vec![],
        path: String::new(),
        updated_at: None,
        enabled,
        icon: None,
    }
}

#[test]
fn tool_and_version_rows() {
    assert_eq!(pad_right(&"go".to_string(), 5), "go   ");
    assert_eq!(pad_right(&"nodejs-long".to_string(), 3), "nodejs-long");
    let (n, c) = tool_row(&"go".to_string(), None);
    assert_eq!(n, "go        ");
    assert_eq!(c, "—");
    let cur = "22.1.0".to_string();
    let installed = vec!["20.0.0".to_string(), "22.1.0".to_string()];
    assert_eq!(version_mark(Some(&cur), &installed, &"22.1.0".to_string()), VersionMark::Global);
    assert_eq!(version_mark(Some(&cur), &installed, &"20.0.0".to_string()), VersionMark::Installed);
    assert_eq!(version_mark(None, &installed, &"18.0.0".to_string()), VersionMark::Install);
    let (v, t) = version_row(&"20.0.0".to_string(), VersionMark::Installed);
    assert_eq!(v, "20.0.0        ");
    assert_eq!(t, " [已装]");
}

#[test]
fn plugin_rows() {
    let local = vec![plugin("nodejs", Some("1.2.0"), true), plugin("java", None, false)];
    let (a, b, c, d) = local_plugin_row(&local[1]);
    assert_eq!(a, "java        ");
    assert_eq!(b, "JAVA          ");
    assert_eq!(c, "禁用");
    assert_eq!(d, "  local");
    let v = "1.2.0".to_string();
    assert_eq!(market_state(local_version_of(&local, &"nodejs".to_string()), &v), MarketState::Installed);
    assert_eq!(market_state(local_version_of(&local, &"nodejs".to_string()), &"1.3.0".to_string()), MarketState::Updatable);
    assert_eq!(market_state(local_version_of(&local, &"java".to_string()), &v), MarketState::Updatable);
    assert_eq!(market_state(local_version_of(&local, &"go".to_string()), &v), MarketState::NotInstalled);
    let (n, ver, tag, desc) = market_row(&"go".to_string(), &"1.0".to_string(), MarketState::Updatable, &"Go SDK".to_string());
    assert_eq!(n, "go          ");
    assert_eq!(ver, "v1.0       ");
    assert_eq!(tag, "可更新   ");
    assert_eq!(desc, "Go SDK");
    assert_eq!(market_title(0), "插件市场（r 拉取）");
    assert_eq!(market_title(4), "插件市场 · 4 个（Enter 安装 / r 刷新）");
}

#[test]
fn queue_rows() {
    assert_eq!(task_tag(TaskState::Running), "下载   ");
    assert_eq!(task_tag(TaskState::Cancelled), "取消   ");
    assert_eq!(progress_task(&[TaskState::Done, TaskState::Queued, TaskState::Running]), Some(2));
    assert_eq!(progress_task(&[TaskState::Done, TaskState::Failed, TaskState::Queued]), Some(1));
    assert_eq!(progress_task(&[TaskState::Done, TaskState::Done]), None);
    assert_eq!(progress_task(&[]), None);
}

#[test]
fn stats_and_mirror_rows() {
    let (t, n) = stats_tool_row(&"nodejs".to_string(), 12);
    assert_eq!(t, "nodejs    ");
    assert_eq!(n, "12  次");
    let (v, c, used, mark) = stats_version_row(&"22.1.0".to_string(), 3, Some(5), false, true);
    assert_eq!(v, "22.1.0        ");
    assert_eq!(c, "3   次");
    assert_eq!(used, "5 天前");
    assert_eq!(mark.as_deref(), Some(" 已装"));
    let (_, _, used, mark) = stats_version_row(&"1".to_string(), 0, None, true, true);
    assert_eq!(used, "从未");
    assert_eq!(mark.as_deref(), Some(" 全局"));
    let (_, _, _, mark) = stats_version_row(&"1".to_string(), 0, None, false, false);
    assert!(mark.is_none());
    let (n, m) = sdk_tool_row(&"java".to_string(), None);
    assert_eq!(n, "java        ");
    assert_eq!(m, "官方源");
    let official = "官方源".to_string();
    let tuna = "tuna".to_string();
    assert_eq!(mirror_option_row(&official, None).1, " ● 当前");
    assert_eq!(mirror_option_row(&official, Some(&tuna)).1, "");
    assert_eq!(mirror_option_row(&tuna, Some(&tuna)).1, " ● 当前");
    assert_eq!(mirror_option_row(&tuna, None).1, "");
    let (n, p) = registry_tool_row(&"npm".to_string(), None);
    assert_eq!(n, "npm     ");
    assert_eq!(p, "未配置");
    let row = preset_row(&"npmmirror".to_string(), &"https://registry.npmmirror.com".to_string(), true, true);
    assert_eq!(row.len(), 5);
    assert_eq!(row[0], "npmmirror           ");
    assert_eq!(row[1], "（当前）");
    assert_eq!(row[2], " ");
    assert_eq!(row[4], "（自定义）");
    let row = preset_row(&"一个非常非常非常长的镜像源名称啊".to_string(), &"u".to_string(), false, false);
    assert_eq!(row.len(), 4);
    assert_eq!(row[1], "        ");
}

#[test]
fn settings_row_texts() {
    let ttl = "12h".to_string();
    let path = "/data/tools".to_string();
    let r = setting_row(SettingRowKind::ProxyEnable, true, None, &ttl, &path, None);
    assert_eq!(r, vec!["下载代理              ".to_string(), "[开]".to_string()]);
    let r = setting_row(SettingRowKind::ProxyUrl, false, None, &ttl, &path, None);
    assert_eq!(r[1], "（未设置）");
    let r = setting_row(SettingRowKind::CacheTtl, false, None, &ttl, &path, None);
    assert_eq!(r[1], "12h");
    let e = RegistryEntry { name: "官方".into(), url: "https://x/index.json".into() };
    let r = setting_row(SettingRowKind::RegistryEntry(0), false, None, &ttl, &path, Some(&e));
    assert_eq!(r.len(), 3);
    assert_eq!(r[0], "插件仓库              ");
    assert_eq!(r[1], "  ");
    assert_eq!(r[2], "官方  https://x/index.json");
}
