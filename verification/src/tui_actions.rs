//! What the action keys of the terminal UI (Enter, Space, `r`, `a`, `d`)
//! do in each tab, and the texts that go with them. The caller carries the
//! action out.

use vstd::prelude::*;

use crate::text::{append, append_str, chars_of, chars_of_string, decimal, dec_digits, to_string};
use crate::tui_input::{InputField, TuiMode};

verus! {

/// What an action key asks for in the current tab.
#[derive(Debug, Clone, Copy, PartialEq, Eq, Structural)]
pub enum TabAction {
    /// Tools tab, version list focused: install or switch the selected version.
    ActOnVersion,
    /// Tools tab, tool list focused: load the selected tool's versions.
    FetchVersions,
    InstallRemotePlugin,
    TogglePlugin,
    CancelTask,
    ActivateMirror,
    ConfirmUninstallVersion,
    ActivateSetting,
    ToggleSettingSwitch,
    RefreshTools,
    FetchRemotePlugins,
    /// Reload the local plugin list (and tell how many there are).
    ReloadPlugins,
    RefreshMirror,
    RefreshStats,
    RefreshConfig,
    /// Open the input box for the name of a custom mirror of the selected tool.
    AddMirrorPreset,
    /// Open the input box for the name of a new plugin registry.
    AddRegistryEntry,
    /// Ask before deleting the selected local plugin.
    AskDeletePlugin,
    /// Ask before deleting the selected registry preset (custom ones only).
    AskDeletePreset,
    /// Ask before deleting the selected plugin registry.
    AskDeleteRegistryEntry,
    Nothing,
}

/// Enter: the main action of the selected row.
pub open spec fn enter_action_of(m: TuiMode) -> TabAction {
    if m.tab == 0 {
        if m.focus_versions {
            TabAction::ActOnVersion
        } else {
            TabAction::FetchVersions
        }
    } else if m.tab == 1 {
        if m.plugin_view == 1 {
            TabAction::InstallRemotePlugin
        } else {
            TabAction::TogglePlugin
        }
    } else if m.tab == 2 {
        TabAction::CancelTask
    } else if m.tab == 3 {
        TabAction::ActivateMirror
    } else if m.tab == 4 {
        TabAction::ConfirmUninstallVersion
    } else if m.tab == 5 {
        TabAction::ActivateSetting
    } else {
        TabAction::Nothing
    }
}

/// Space: switches (a plugin on or off, a setting), or the market's install.
pub open spec fn space_action_of(m: TuiMode) -> TabAction {
    if m.tab == 1 {
        if m.plugin_view == 0 {
            TabAction::TogglePlugin
        } else {
            TabAction::InstallRemotePlugin
        }
    } else if m.tab == 3 {
        TabAction::ActivateMirror
    } else if m.tab == 5 {
        TabAction::ToggleSettingSwitch
    } else {
        TabAction::Nothing
    }
}

/// `r`: reload what the tab shows.
pub open spec fn refresh_action_of(m: TuiMode) -> TabAction {
    if m.tab == 0 {
        TabAction::RefreshTools
    } else if m.tab == 1 {
        if m.plugin_view == 1 {
            TabAction::FetchRemotePlugins
        } else {
            TabAction::ReloadPlugins
        }
    } else if m.tab == 3 {
        TabAction::RefreshMirror
    } else if m.tab == 4 {
        TabAction::RefreshStats
    } else if m.tab == 5 {
        TabAction::RefreshConfig
    } else {
        TabAction::Nothing
    }
}

/// `a`: add a custom registry preset, or a plugin registry.
pub open spec fn add_action_of(m: TuiMode) -> TabAction {
    if m.tab == 3 && m.mirror_view == 0 {
        TabAction::AddMirrorPreset
    } else if m.tab == 5 {
        TabAction::AddRegistryEntry
    } else {
        TabAction::Nothing
    }
}

/// `d` (and Delete): delete the selected plugin, preset or plugin registry.
pub open spec fn delete_action_of(m: TuiMode) -> TabAction {
    if m.tab == 1 && m.plugin_view == 0 {
        TabAction::AskDeletePlugin
    } else if m.tab == 3 && m.mirror_view == 0 {
        TabAction::AskDeletePreset
    } else if m.tab == 5 {
        TabAction::AskDeleteRegistryEntry
    } else {
        TabAction::Nothing
    }
}

pub fn enter_action(m: TuiMode) -> (r: TabAction)
    ensures
        r == enter_action_of(m),
{
    match m.tab {
        0 => if m.focus_versions {
            TabAction::ActOnVersion
        } else {
            TabAction::FetchVersions
        },
        1 => if m.plugin_view == 1 {
            TabAction::InstallRemotePlugin
        } else {
            TabAction::TogglePlugin
        },
        2 => TabAction::CancelTask,
        3 => TabAction::ActivateMirror,
        4 => TabAction::ConfirmUninstallVersion,
        5 => TabAction::ActivateSetting,
        _ => TabAction::Nothing,
    }
}

pub fn space_action(m: TuiMode) -> (r: TabAction)
    ensures
        r == space_action_of(m),
{
    match m.tab {
        1 => if m.plugin_view == 0 {
            TabAction::TogglePlugin
        } else {
            TabAction::InstallRemotePlugin
        },
        3 => TabAction::ActivateMirror,
        5 => TabAction::ToggleSettingSwitch,
        _ => TabAction::Nothing,
    }
}

pub fn refresh_action(m: TuiMode) -> (r: TabAction)
    ensures
        r == refresh_action_of(m),
{
    match m.tab {
        0 => TabAction::RefreshTools,
        1 => if m.plugin_view == 1 {
            TabAction::FetchRemotePlugins
        } else {
            TabAction::ReloadPlugins
        },
        3 => TabAction::RefreshMirror,
        4 => TabAction::RefreshStats,
        5 => TabAction::RefreshConfig,
        _ => TabAction::Nothing,
    }
}

pub fn add_action(m: TuiMode) -> (r: TabAction)
    ensures
        r == add_action_of(m),
{
    if m.tab == 3 && m.mirror_view == 0 {
        TabAction::AddMirrorPreset
    } else if m.tab == 5 {
        TabAction::AddRegistryEntry
    } else {
        TabAction::Nothing
    }
}

pub fn delete_action(m: TuiMode) -> (r: TabAction)
    ensures
        r == delete_action_of(m),
{
    if m.tab == 1 && m.plugin_view == 0 {
        TabAction::AskDeletePlugin
    } else if m.tab == 3 && m.mirror_view == 0 {
        TabAction::AskDeletePreset
    } else if m.tab == 5 {
        TabAction::AskDeleteRegistryEntry
    } else {
        TabAction::Nothing
    }
}

/// The status after the local plugin list was reloaded.
pub fn plugins_reloaded_status(count: u64) -> (r: String)
    ensures
        r@ == "插件列表已刷新（"@ + dec_digits(count as nat) + " 个）"@,
{
    let mut t = chars_of("插件列表已刷新（");
    append(&mut t, &decimal(count));
    append_str(&mut t, " 个）");
    to_string(&t)
}

/// The input box that an add action opens: its field and prompt (the first
/// step of a two-step entry). `tool` is the tool whose presets are shown.
pub fn add_input(action: TabAction, tool: &String) -> (r: Option<(InputField, String)>)
    ensures
        action == TabAction::AddMirrorPreset ==> (r matches Some((f, p)) && f == InputField::MirrorName
            && p@ == "为 "@ + tool@ + " 添加自定义镜像源：名称"@),
        action == TabAction::AddRegistryEntry ==> (r matches Some((f, p)) && f == InputField::RegistryName
            && p@ == "添加插件仓库：仓库名（如 官方gitee）"@),
        action != TabAction::AddMirrorPreset && action != TabAction::AddRegistryEntry ==> r is None,
{
    match action {
        TabAction::AddMirrorPreset => {
            let mut p = chars_of("为 ");
            append(&mut p, &chars_of_string(tool));
            append_str(&mut p, " 添加自定义镜像源：名称");
            Some((InputField::MirrorName, to_string(&p)))
        },
        TabAction::AddRegistryEntry => Some(
            (InputField::RegistryName, to_string(&chars_of("添加插件仓库：仓库名（如 官方gitee）"))),
        ),
        _ => None,
    }
}

} // verus!
