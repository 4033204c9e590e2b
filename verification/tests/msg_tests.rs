use envhive::tui_msg::{on_msg, ManagerEvent, MsgState, UiMsg};
use envhive::tui_nav::initial_selection;

fn state() -> MsgState {
    let mut selection = initial_selection();
    selection.ver_idx = 3;
    selection.plugin_idx = 2;
    MsgState { selection, versions: vec!["1.0".to_string()], status: "old".to_string(), error: None }
}

#[test]
fn version_list_arrival_focuses_it() {
    let mut st = state();
    let dist = "Temurin".to_string();
    let fx = on_msg(
        &mut st,
        UiMsg::Versions { tool: "java".into(), versions: vec!["21".into(), "17".into()] },
        Some(&dist),
    );
    assert_eq!(st.versions, vec!["21".to_string(), "17".to_string()]);
    assert_eq!(st.selection.ver_idx, 0);
    assert!(st.selection.focus_versions);
    assert_eq!(st.status, "java · Temurin 可用版本 2 个（Tab 在版本列表导航）");
    assert!(!fx.refresh_tools && !fx.refresh_stats);
}

#[test]
fn manager_events_update_status_and_error() {
    let mut st = state();
    on_msg(
        &mut st,
        UiMsg::Manager(ManagerEvent::InstallStatus { tool: "node".into(), version: "20.1.0".into(), detail: None }),
        None,
    );
    assert_eq!(st.status, "node 20.1.0 ");
    on_msg(
        &mut st,
        UiMsg::Manager(ManagerEvent::InstallStatus {
            tool: "node".into(),
            version: "20.1.0".into(),
            detail: Some("解压中".into()),
        }),
        None,
    );
    assert_eq!(st.status, "node 20.1.0 解压中");
    on_msg(
        &mut st,
        UiMsg::Manager(ManagerEvent::Error { tool: "go".into(), code: "Network".into(), message: "timeout".into() }),
        None,
    );
    assert_eq!(st.error.as_deref(), Some("[go] Network: timeout"));
    let fx = on_msg(
        &mut st,
        UiMsg::Manager(ManagerEvent::VersionChanged { tool: "go".into(), version: "1.22.0".into() }),
        None,
    );
    assert_eq!(st.status, "✓ go 已切换为全局默认 1.22.0");
    assert!(fx.refresh_tools && !fx.refresh_stats);
}

#[test]
fn queue_and_status_refresh_stats() {
    let mut st = state();
    let fx = on_msg(&mut st, UiMsg::Manager(ManagerEvent::QueueUpdated), None);
    assert!(fx.keep_tasks && fx.refresh_tools && fx.refresh_stats);
    assert_eq!(st.status, "old");
    let fx = on_msg(&mut st, UiMsg::Status("done".into()), None);
    assert!(fx.refresh_stats && !fx.refresh_tools);
    assert_eq!(st.status, "done");
    let fx = on_msg(&mut st, UiMsg::Manager(ManagerEvent::Progress), None);
    assert!(fx.keep_progress && !fx.refresh_stats);
    let fx = on_msg(&mut st, UiMsg::RemotePlugins { count: 12 }, None);
    assert!(fx.keep_remote_plugins);
    assert_eq!(st.selection.plugin_idx, 0);
    assert_eq!(st.status, "插件市场共 12 个插件（Enter 安装 / r 刷新）");
}
