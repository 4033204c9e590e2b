use envhive::tui_actions::{
    add_action, add_input, delete_action, enter_action, plugins_reloaded_status, refresh_action, space_action, TabAction,
};
use envhive::tui_input::{InputField, TuiMode};

fn mode(tab: usize) -> TuiMode {
    TuiMode { tab, plugin_view: 0, mirror_view: 0, focus_versions: false, confirm_open: false, input_open: false }
}

#[test]
fn enter_and_space_by_tab() {
    assert_eq!(enter_action(mode(0)), TabAction::FetchVersions);
    assert_eq!(enter_action(TuiMode { focus_versions: true, ..mode(0) }), TabAction::ActOnVersion);
    assert_eq!(enter_action(mode(1)), TabAction::TogglePlugin);
    assert_eq!(enter_action(TuiMode { plugin_view: 1, ..mode(1) }), TabAction::InstallRemotePlugin);
    assert_eq!(enter_action(mode(2)), TabAction::CancelTask);
    assert_eq!(enter_action(mode(3)), TabAction::ActivateMirror);
    assert_eq!(enter_action(mode(4)), TabAction::ConfirmUninstallVersion);
    assert_eq!(enter_action(mode(5)), TabAction::ActivateSetting);
    assert_eq!(enter_action(mode(6)), TabAction::Nothing);
    assert_eq!(space_action(mode(0)), TabAction::Nothing);
    assert_eq!(space_action(mode(1)), TabAction::TogglePlugin);
    assert_eq!(space_action(TuiMode { plugin_view: 1, ..mode(1) }), TabAction::InstallRemotePlugin);
    assert_eq!(space_action(mode(5)), TabAction::ToggleSettingSwitch);
}

#[test]
fn refresh_add_delete_by_tab() {
    assert_eq!(refresh_action(mode(0)), TabAction::RefreshTools);
    assert_eq!(refresh_action(mode(1)), TabAction::ReloadPlugins);
    assert_eq!(refresh_action(TuiMode { plugin_view: 1, ..mode(1) }), TabAction::FetchRemotePlugins);
    assert_eq!(refresh_action(mode(2)), TabAction::Nothing);
    assert_eq!(refresh_action(mode(4)), TabAction::RefreshStats);
    assert_eq!(add_action(mode(3)), TabAction::AddMirrorPreset);
    assert_eq!(add_action(TuiMode { mirror_view: 1, ..mode(3) }), TabAction::Nothing);
    assert_eq!(add_action(mode(5)), TabAction::AddRegistryEntry);
    assert_eq!(delete_action(mode(1)), TabAction::AskDeletePlugin);
    assert_eq!(delete_action(TuiMode { plugin_view: 1, ..mode(1) }), TabAction::Nothing);
    assert_eq!(delete_action(mode(3)), TabAction::AskDeletePreset);
    assert_eq!(delete_action(mode(5)), TabAction::AskDeleteRegistryEntry);
    assert_eq!(delete_action(mode(0)), TabAction::Nothing);
    assert_eq!(plugins_reloaded_status(3), "插件列表已刷新（3 个）");
    let tool = "npm".to_string();
    let (f, p) = add_input(TabAction::AddMirrorPreset, &tool).unwrap();
    assert_eq!(f, InputField::MirrorName);
    assert_eq!(p, "为 npm 添加自定义镜像源：名称");
    let (f, p) = add_input(TabAction::AddRegistryEntry, &tool).unwrap();
    assert_eq!(f, InputField::RegistryName);
    assert_eq!(p, "添加插件仓库：仓库名（如 官方gitee）");
    assert!(add_input(TabAction::Nothing, &tool).is_none());
}
