use envhive::strmap::StrMap;
use envhive::term::display_width;
use envhive::tool::{DistributionInfo, MirrorCandidate, ToolInfo};
use envhive::tui_input::InputField;
use envhive::tui_nav::{
    hit_list, initial_selection, is_double_click, list_count, move_sel, on_list_click,
    on_list_double_click, on_tab, tab_at, tab_titles, toggle_view, ClickTarget, ListAction,
    ListArea, ListCounts, TAB_SEP,
};
use envhive::tui_tabs::{
    activate_setting, chosen_mirror, contains_text, current_mirror_of, cycle_distribution,
    distribution_index, edit_setting, enqueue_status, key_hint, mirror_options,
    plugin_delete_prompt, preset_delete_prompt, registry_delete_prompt, same_text,
    selected_registry_entry, setting_row_kind, status_text, switch_statuses, uninstall_prompt,
    versions_for, versions_status, SettingAction, SettingRowKind,
};

fn counts() -> ListCounts {
    ListCounts {
        tools: 3,
        versions: 5,
        local_plugins: 2,
        remote_plugins: 4,
        tasks: 0,
        mirror_tools: 10,
        sdk_tools: 2,
        sdk_options: 3,
        presets: 4,
        stats_tools: 2,
        stats_versions: 3,
        registry_entries: 2,
    }
}

fn dist(key: &str, display: &str) -> DistributionInfo {
    DistributionInfo { key: key.into(), display: display.into() }
}

fn tool(installed: &[&str], available: Option<&[&str]>) -> ToolInfo {
    ToolInfo {
        name: "nodejs".into(),
        display: "Node.js".into(),
        category: "lang".into(),
        homepage: String::new(),
        current: None,
        installed: installed.iter().map(|s| s.to_string()).collect(),
        available: available.map(|a| a.iter().map(|s| s.to_string()).collect()),
        bin_path: None,
        distributions: None,
        default_distribution: None,
        mirrors: None,
        default_mirror: None,
        icon: None,
    }
}

#[test]
fn arrows_wrap_in_the_focused_list() {
    let c = counts();
    let mut s = initial_selection();
    assert!(move_sel(&mut s, &c, -1));
    assert_eq!(s.tool_idx, 2);
    assert!(move_sel(&mut s, &c, 1));
    assert_eq!(s.tool_idx, 0);
    s.focus_versions = true;
    assert!(!move_sel(&mut s, &c, -1));
    assert_eq!(s.ver_idx, 4);
    // empty task list stays at 0
    s.tab = 2;
    s.task_idx = 7;
    move_sel(&mut s, &c, 1);
    assert_eq!(s.task_idx, 0);
    // mirrors: moving the tool list resets the preset row
    s.tab = 3;
    s.preset_idx = 2;
    move_sel(&mut s, &c, 1);
    assert_eq!((s.mirror_idx, s.preset_idx), (1, 0));
    s.focus_mirror_tools = false;
    move_sel(&mut s, &c, -1);
    assert_eq!(s.preset_idx, 3);
    // settings: four fixed rows plus the registries
    s.tab = 5;
    move_sel(&mut s, &c, -1);
    assert_eq!(s.settings_idx, 5);
    // statistics: another tool starts at its first version
    s.tab = 4;
    s.stats_ver_idx = 2;
    move_sel(&mut s, &c, 1);
    assert_eq!((s.stats_idx, s.stats_ver_idx), (1, 0));
}

#[test]
fn tab_key_switches_focus_or_tab() {
    let mut s = initial_selection();
    let o = on_tab(&mut s);
    assert!(s.focus_versions);
    assert_eq!(o.status.as_deref(), Some("版本列表"));
    assert!(!o.clear);
    s.tab = 1;
    s.plugin_idx = 3;
    let o = on_tab(&mut s);
    assert_eq!((s.plugin_view, s.plugin_idx), (1, 0));
    assert_eq!(o.status.as_deref(), Some("插件市场（Enter 安装 / r 刷新）"));
    s.tab = 6;
    let o = on_tab(&mut s);
    assert_eq!(s.tab, 0);
    assert!(o.clear && o.status.is_none());
    s.tab = 2;
    on_tab(&mut s);
    assert_eq!(s.tab, 3);
}

#[test]
fn m_key_switches_views() {
    let mut s = initial_selection();
    assert_eq!(toggle_view(&mut s), None);
    s.tab = 3;
    s.preset_idx = 2;
    assert_eq!(toggle_view(&mut s).as_deref(), Some("下载加速镜像（Enter 切换）"));
    assert_eq!((s.mirror_view, s.preset_idx), (1, 0));
    assert_eq!(
        toggle_view(&mut s).as_deref(),
        Some("镜像源（Enter 应用预设 / a 添加 / d/Del 删除自定义）")
    );
}

#[test]
fn clicks_select_and_double_clicks_act() {
    let mut s = initial_selection();
    s.focus_versions = true;
    assert_eq!(on_list_click(&mut s, ClickTarget::ToolList, 2), "鼠标已选中列表项（Enter 操作 / 空格 开关）");
    assert_eq!((s.tool_idx, s.focus_versions), (2, false));
    on_list_click(&mut s, ClickTarget::MirrorPresetList, 1);
    assert_eq!((s.preset_idx, s.focus_mirror_tools), (1, false));
    on_list_click(&mut s, ClickTarget::MirrorToolList, 4);
    assert_eq!((s.mirror_idx, s.focus_mirror_tools, s.preset_idx), (4, true, 0));
    assert_eq!(on_list_double_click(&mut s, ClickTarget::VersionList, 3), ListAction::ActOnVersion);
    assert_eq!((s.ver_idx, s.focus_versions), (3, true));
    assert_eq!(on_list_double_click(&mut s, ClickTarget::PluginList, 0), ListAction::TogglePlugin);
    s.plugin_view = 1;
    assert_eq!(on_list_double_click(&mut s, ClickTarget::PluginList, 0), ListAction::InstallRemotePlugin);
    assert_eq!(on_list_double_click(&mut s, ClickTarget::StatsToolList, 1), ListAction::Select);
    assert_eq!(s.stats_idx, 1);
    assert!(is_double_click(Some((ClickTarget::TaskList, 2)), 399, ClickTarget::TaskList, 2));
    assert!(!is_double_click(Some((ClickTarget::TaskList, 2)), 400, ClickTarget::TaskList, 2));
    assert!(!is_double_click(Some((ClickTarget::TaskList, 1)), 10, ClickTarget::TaskList, 2));
    assert!(!is_double_click(None, 10, ClickTarget::TaskList, 2));
}

#[test]
fn tab_bar_hits() {
    let titles = tab_titles();
    let widths: Vec<u16> = titles.iter().map(|t| display_width(t) as u16).collect();
    let sep = display_width(TAB_SEP) as u16;
    assert_eq!(widths[0], 7);
    assert_eq!(sep, 3);
    // the bar starts at column 0; titles start inside its left border, and
    // each title with the separator after it takes 10 cells
    assert_eq!(tab_at(0, 1, 0, 0, &widths, sep), None);
    assert_eq!(tab_at(1, 1, 0, 0, &widths, sep), Some(0));
    assert_eq!(tab_at(10, 0, 0, 0, &widths, sep), Some(0));
    assert_eq!(tab_at(11, 1, 0, 0, &widths, sep), Some(1));
    assert_eq!(tab_at(11, 2, 0, 0, &widths, sep), None);
    assert_eq!(tab_at(70, 1, 0, 0, &widths, sep), Some(6));
    assert_eq!(tab_at(71, 1, 0, 0, &widths, sep), None);
    assert_eq!(tab_at(21, 6, 5, 5, &widths, sep), Some(1));
}

#[test]
fn list_hits() {
    let c = counts();
    let s = initial_selection();
    let areas = vec![
        ListArea { target: ClickTarget::TaskList, x: 0, y: 0, width: 20, height: 10 },
        ListArea { target: ClickTarget::ToolList, x: 20, y: 0, width: 20, height: 10 },
        ListArea { target: ClickTarget::VersionList, x: 20, y: 0, width: 20, height: 10 },
    ];
    // inside an empty list nothing is hit
    assert_eq!(hit_list(5, 2, &areas, &s, &c), None);
    // rows below the last tool fall through to the next area
    assert_eq!(hit_list(25, 2, &areas, &s, &c), Some((ClickTarget::ToolList, 1)));
    assert_eq!(hit_list(25, 5, &areas, &s, &c), Some((ClickTarget::VersionList, 4)));
    assert_eq!(hit_list(25, 6, &areas, &s, &c), None);
    // the border is not a row
    assert_eq!(hit_list(25, 0, &areas, &s, &c), None);
    assert_eq!(list_count(&s, &c, ClickTarget::SettingList), 6);
    assert_eq!(list_count(&s, &c, ClickTarget::PluginList), 2);
}

#[test]
fn version_lists_and_distributions() {
    let t = tool(&["20.1.0", "22.1.0"], Some(&["22.1.0", "23.0.0", "23.0.0"]));
    assert_eq!(versions_for(Some(&t)), vec!["20.1.0", "22.1.0", "23.0.0"]);
    assert_eq!(versions_for(Some(&tool(&["1"], None))), vec!["1"]);
    assert!(versions_for(None).is_empty());
    let ds = vec![dist("tem", "Temurin"), dist("zulu", "Zulu")];
    let zulu = String::from("zulu");
    let none = String::from("corretto");
    assert_eq!(distribution_index(Some(&ds), Some(&zulu)), 1);
    assert_eq!(distribution_index(Some(&ds), Some(&none)), 0);
    assert_eq!(distribution_index(None, Some(&zulu)), 0);
    let (n, st) = cycle_distribution(1, Some(&ds)).unwrap();
    assert_eq!(n, 0);
    assert_eq!(st, "已切换发行商：Temurin （Enter 拉取版本 / 安装将使用该发行商）");
    assert_eq!(cycle_distribution(7, Some(&ds)).unwrap().0, 0);
    assert_eq!(
        cycle_distribution(0, None).unwrap_err(),
        "当前工具无发行商维度（如 Node.js 仅有单一官方源）"
    );
    assert!(same_text(&"a".to_string(), &"a".to_string()));
    assert!(contains_text(&vec!["x".to_string(), "y".to_string()], &"y".to_string()));
}

#[test]
fn settings_rows() {
    assert_eq!(setting_row_kind(0), SettingRowKind::ProxyEnable);
    assert_eq!(setting_row_kind(3), SettingRowKind::StoragePath);
    assert_eq!(setting_row_kind(5), SettingRowKind::RegistryEntry(1));
    assert_eq!(selected_registry_entry(4), Some(0));
    assert_eq!(selected_registry_entry(2), None);
    assert!(matches!(activate_setting(SettingRowKind::ProxyEnable), SettingAction::ToggleProxy));
    match activate_setting(SettingRowKind::CacheTtl) {
        SettingAction::Input { field, prompt } => {
            assert_eq!(field, InputField::CacheTtl);
            assert_eq!(prompt, "缓存有效期（12h / 3600 / -1 / 0）");
        }
        _ => panic!("expected input"),
    }
    assert!(matches!(activate_setting(SettingRowKind::RegistryEntry(0)), SettingAction::Nothing));
    match edit_setting(SettingRowKind::ProxyEnable) {
        SettingAction::Status(t) => assert_eq!(t, "该行不可编辑（开关用空格，仓库行用 a/d）"),
        _ => panic!("expected status"),
    }
}

#[test]
fn mirror_choices() {
    let ms = vec![
        MirrorCandidate { name: "官方".into(), from: "https://o/".into(), to: "https://o/".into() },
        MirrorCandidate { name: "npmmirror".into(), from: "https://o/".into(), to: "https://m/".into() },
        MirrorCandidate { name: "npmmirror".into(), from: "https://p/".into(), to: "https://q/".into() },
    ];
    assert_eq!(mirror_options(Some(&ms)), vec!["官方源", "官方", "npmmirror"]);
    assert_eq!(mirror_options(None), vec!["官方源"]);
    let mut rules = StrMap::new();
    assert_eq!(current_mirror_of(Some(&ms), &rules), None);
    rules.insert("https://o/".into(), "https://o/".into());
    assert_eq!(current_mirror_of(Some(&ms), &rules), None);
    rules.insert("https://o/".into(), "https://m/".into());
    assert_eq!(current_mirror_of(Some(&ms), &rules).as_deref(), Some("npmmirror"));
    let (m, st) = chosen_mirror(&"Node.js".to_string(), &"官方源".to_string());
    assert_eq!(m, None);
    assert_eq!(st, "Node.js 已恢复官方源");
    let (m, st) = chosen_mirror(&"Node.js".to_string(), &"npmmirror".to_string());
    assert_eq!(m.as_deref(), Some("npmmirror"));
    assert_eq!(st, "Node.js 下载加速镜像已切换为「npmmirror」");
}

#[test]
fn prompts_and_statuses() {
    let t = "nodejs".to_string();
    let v = "22.1.0".to_string();
    assert_eq!(uninstall_prompt(&t, &v, true, true).unwrap_err(), "当前全局版本不可直接卸载，请先切换/解除全局使用");
    assert_eq!(uninstall_prompt(&t, &v, false, false).unwrap_err(), "该版本未安装");
    assert_eq!(
        uninstall_prompt(&t, &v, false, true).unwrap(),
        "卸载 nodejs 22.1.0？版本目录将被删除，可通过重新安装恢复。"
    );
    assert_eq!(enqueue_status(&t, &v, false), "已入队安装 nodejs 22.1.0 。Tab 切到「3 队列」查看进度");
    assert_eq!(
        enqueue_status(&t, &v, true),
        "已入队安装 nodejs 22.1.0 （队列已有相同任务，已复用）。Tab 切到「3 队列」查看进度"
    );
    let (a, b) = switch_statuses(&t, &v);
    assert_eq!(a, "正在切换 nodejs -> 22.1.0…");
    assert_eq!(b, "✓ nodejs 22.1.0 已设为全局默认");
    let d = "Temurin".to_string();
    assert_eq!(versions_status(&t, Some(&d), 12), "nodejs · Temurin 可用版本 12 个（Tab 在版本列表导航）");
    assert_eq!(versions_status(&t, None, 0), "nodejs 可用版本 0 个（Tab 在版本列表导航）");
    assert_eq!(preset_delete_prompt(&t, &"my".to_string(), true).unwrap(), "删除 nodejs 自定义源「my」？");
    assert_eq!(preset_delete_prompt(&t, &"官方".to_string(), false).unwrap_err(), "内置预设不可删除");
    assert_eq!(plugin_delete_prompt(&"Node.js".to_string()), "删除插件 Node.js（仅删定义，已装版本保留）？");
    assert_eq!(registry_delete_prompt(&"官方".to_string()), "删除插件仓库「官方」？");
    let e = "boom".to_string();
    assert_eq!(status_text(Some(&e), &v), ("✗ boom".to_string(), true));
    assert_eq!(status_text(None, &v), ("22.1.0".to_string(), false));
    assert_eq!(key_hint(2), "c 取消  x 清空终态  ·鼠标点Tab");
    assert_eq!(key_hint(9), "全部功能一览  ·鼠标点Tab");
}
