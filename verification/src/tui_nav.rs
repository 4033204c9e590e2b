//! Selection state of the terminal UI: which row of which list is selected,
//! which column has the focus, how the arrow keys, the Tab key and mouse
//! clicks move them, and where a click on the screen lands.

use vstd::prelude::*;

use crate::term::shift;
use crate::text::{chars_of, to_string};
use crate::tui_input::TAB_COUNT;

verus! {

/// The lists that can be clicked.
#[derive(Debug, Clone, Copy, PartialEq, Eq, Structural)]
pub enum ClickTarget {
    ToolList,
    VersionList,
    PluginList,
    TaskList,
    MirrorToolList,
    MirrorPresetList,
    StatsToolList,
    StatsVersionList,
    SettingList,
}

/// The selected rows, the sub-views and the focus of each tab.
#[derive(Debug, Clone, Copy, PartialEq, Eq, Structural)]
pub struct Selection {
    pub tab: usize,
    pub tool_idx: usize,
    pub focus_versions: bool,
    pub ver_idx: usize,
    /// Plugins tab: 0 local plugins, 1 market.
    pub plugin_view: u8,
    pub plugin_idx: usize,
    pub task_idx: usize,
    /// Mirrors tab: 0 registry presets, 1 download mirrors.
    pub mirror_view: u8,
    pub mirror_idx: usize,
    pub focus_mirror_tools: bool,
    pub preset_idx: usize,
    pub stats_idx: usize,
    pub focus_stats_versions: bool,
    pub stats_ver_idx: usize,
    pub settings_idx: usize,
}

/// The number of rows of each list.
#[derive(Debug, Clone, Copy, PartialEq, Eq, Structural)]
pub struct ListCounts {
    pub tools: usize,
    pub versions: usize,
    pub local_plugins: usize,
    pub remote_plugins: usize,
    pub tasks: usize,
    /// Tools whose package registry can be switched.
    pub mirror_tools: usize,
    /// Tools that declare download mirrors.
    pub sdk_tools: usize,
    /// Choices of download mirror of the selected tool.
    pub sdk_options: usize,
    /// Registry presets of the selected tool.
    pub presets: usize,
    pub stats_tools: usize,
    pub stats_versions: usize,
    pub registry_entries: usize,
}

/// The first selection: the tools tab, every list at its first row, the
/// focus on the left column.
pub fn initial_selection() -> (s: Selection)
    ensures
        s == (Selection {
            tab: 0,
            tool_idx: 0,
            focus_versions: false,
            ver_idx: 0,
            plugin_view: 0,
            plugin_idx: 0,
            task_idx: 0,
            mirror_view: 0,
            mirror_idx: 0,
            focus_mirror_tools: true,
            preset_idx: 0,
            stats_idx: 0,
            focus_stats_versions: false,
            stats_ver_idx: 0,
            settings_idx: 0,
        }),
{
    Selection {
        tab: 0,
        tool_idx: 0,
        focus_versions: false,
        ver_idx: 0,
        plugin_view: 0,
        plugin_idx: 0,
        task_idx: 0,
        mirror_view: 0,
        mirror_idx: 0,
        focus_mirror_tools: true,
        preset_idx: 0,
        stats_idx: 0,
        focus_stats_versions: false,
        stats_ver_idx: 0,
        settings_idx: 0,
    }
}

/// The settings tab shows four fixed rows, then one row per plugin
/// registry.
pub open spec fn settings_rows_of(c: ListCounts) -> int {
    4 + c.registry_entries
}

/// The number of rows of a clickable list, as the current sub-views show it.
pub open spec fn count_of(s: Selection, c: ListCounts, t: ClickTarget) -> int {
    match t {
        ClickTarget::ToolList => c.tools as int,
        ClickTarget::VersionList => c.versions as int,
        ClickTarget::PluginList => if s.plugin_view == 1 {
            c.remote_plugins as int
        } else {
            c.local_plugins as int
        },
        ClickTarget::TaskList => c.tasks as int,
        ClickTarget::MirrorToolList => if s.mirror_view == 1 {
            c.sdk_tools as int
        } else {
            c.mirror_tools as int
        },
        ClickTarget::MirrorPresetList => if s.mirror_view == 1 {
            c.sdk_options as int
        } else {
            c.presets as int
        },
        ClickTarget::StatsToolList => c.stats_tools as int,
        ClickTarget::StatsVersionList => c.stats_versions as int,
        ClickTarget::SettingList => settings_rows_of(c),
    }
}

/// The number of rows of a clickable list.
pub fn list_count(s: &Selection, c: &ListCounts, t: ClickTarget) -> (r: usize)
    requires
        c.registry_entries <= usize::MAX - 4,
    ensures
        r == count_of(*s, *c, t),
{
    match t {
        ClickTarget::ToolList => c.tools,
        ClickTarget::VersionList => c.versions,
        ClickTarget::PluginList => if s.plugin_view == 1 {
            c.remote_plugins
        } else {
            c.local_plugins
        },
        ClickTarget::TaskList => c.tasks,
        ClickTarget::MirrorToolList => if s.mirror_view == 1 {
            c.sdk_tools
        } else {
            c.mirror_tools
        },
        ClickTarget::MirrorPresetList => if s.mirror_view == 1 {
            c.sdk_options
        } else {
            c.presets
        },
        ClickTarget::StatsToolList => c.stats_tools,
        ClickTarget::StatsVersionList => c.stats_versions,
        ClickTarget::SettingList => 4 + c.registry_entries,
    }
}

/// `idx` moved by `delta` in a list of `len` rows, wrapping around at both
/// ends; 0 in an empty list.
pub open spec fn shifted(idx: usize, delta: isize, len: int) -> usize {
    if len <= 0 {
        0
    } else {
        ((idx + delta) % len) as usize
    }
}

/// A move keeps the selection inside a list that is not empty, and moving
/// back undoes it.
pub proof fn lemma_shifted_laws(idx: usize, delta: isize, len: int)
    requires
        0 <= idx < len,
        len <= isize::MAX,
        delta > isize::MIN,
    ensures
        shifted(idx, delta, len) < len,
        shifted(shifted(idx, delta, len), -delta as isize, len) == idx,
{
    let a = (idx + delta) % len;
    assert(0 <= a < len);
    assert((-delta) as isize == -delta);
    crate::term::lemma_shift_back(idx as int, delta as int, len);
}

/// The selection after moving up (`delta` −1) or down (+1) in the list that
/// has the focus.
pub open spec fn moved(s: Selection, c: ListCounts, delta: isize) -> Selection {
    if s.tab == 0 {
        if s.focus_versions {
            Selection { ver_idx: shifted(s.ver_idx, delta, c.versions as int), ..s }
        } else {
            Selection { tool_idx: shifted(s.tool_idx, delta, c.tools as int), ..s }
        }
    } else if s.tab == 1 {
        Selection {
            plugin_idx: shifted(
                s.plugin_idx,
                delta,
                if s.plugin_view == 1 {
                    c.remote_plugins as int
                } else {
                    c.local_plugins as int
                },
            ),
            ..s
        }
    } else if s.tab == 2 {
        Selection { task_idx: shifted(s.task_idx, delta, c.tasks as int), ..s }
    } else if s.tab == 3 {
        if s.focus_mirror_tools {
            Selection {
                mirror_idx: shifted(
                    s.mirror_idx,
                    delta,
                    if s.mirror_view == 1 {
                        c.sdk_tools as int
                    } else {
                        c.mirror_tools as int
                    },
                ),
                preset_idx: 0,
                ..s
            }
        } else {
            Selection {
                preset_idx: shifted(
                    s.preset_idx,
                    delta,
                    if s.mirror_view == 1 {
                        c.sdk_options as int
                    } else {
                        c.presets as int
                    },
                ),
                ..s
            }
        }
    } else if s.tab == 4 {
        if s.focus_stats_versions {
            Selection { stats_ver_idx: shifted(s.stats_ver_idx, delta, c.stats_versions as int), ..s }
        } else {
            Selection {
                stats_idx: shifted(s.stats_idx, delta, c.stats_tools as int),
                stats_ver_idx: 0,
                ..s
            }
        }
    } else if s.tab == 5 {
        Selection { settings_idx: shifted(s.settings_idx, delta, settings_rows_of(c)), ..s }
    } else {
        s
    }
}

/// An index that can be moved by `delta` without leaving `isize`.
pub open spec fn movable(idx: usize, delta: isize) -> bool {
    idx <= isize::MAX && idx + delta <= isize::MAX
}

/// Every index and row count fits in `isize`, also after a move by `delta`.
pub open spec fn fits(s: Selection, c: ListCounts, delta: isize) -> bool {
    &&& movable(s.tool_idx, delta)
    &&& movable(s.ver_idx, delta)
    &&& movable(s.plugin_idx, delta)
    &&& movable(s.task_idx, delta)
    &&& movable(s.mirror_idx, delta)
    &&& movable(s.preset_idx, delta)
    &&& movable(s.stats_idx, delta)
    &&& movable(s.stats_ver_idx, delta)
    &&& movable(s.settings_idx, delta)
    &&& c.tools <= isize::MAX
    &&& c.versions <= isize::MAX
    &&& c.local_plugins <= isize::MAX
    &&& c.remote_plugins <= isize::MAX
    &&& c.tasks <= isize::MAX
    &&& c.mirror_tools <= isize::MAX
    &&& c.sdk_tools <= isize::MAX
    &&& c.sdk_options <= isize::MAX
    &&& c.presets <= isize::MAX
    &&& c.stats_tools <= isize::MAX
    &&& c.stats_versions <= isize::MAX
    &&& c.registry_entries <= isize::MAX - 4
}

/// Moves the selection of the focused list by `delta`, wrapping around.
/// Returns whether another tool was selected in the tools list: the caller
/// then reloads that tool's versions and distribution.
pub fn move_sel(s: &mut Selection, c: &ListCounts, delta: isize) -> (tool_moved: bool)
    requires
        fits(*old(s), *c, delta),
    ensures
        *final(s) == moved(*old(s), *c, delta),
        tool_moved == (old(s).tab == 0 && !old(s).focus_versions),
{
    if s.tab == 0 {
        if s.focus_versions {
            s.ver_idx = shift(s.ver_idx, delta, c.versions);
            false
        } else {
            s.tool_idx = shift(s.tool_idx, delta, c.tools);
            true
        }
    } else if s.tab == 1 {
        let n = if s.plugin_view == 1 {
            c.remote_plugins
        } else {
            c.local_plugins
        };
        s.plugin_idx = shift(s.plugin_idx, delta, n);
        false
    } else if s.tab == 2 {
        s.task_idx = shift(s.task_idx, delta, c.tasks);
        false
    } else if s.tab == 3 {
        if s.focus_mirror_tools {
            let n = if s.mirror_view == 1 {
                c.sdk_tools
            } else {
                c.mirror_tools
            };
            s.mirror_idx = shift(s.mirror_idx, delta, n);
            s.preset_idx = 0;
        } else {
            let n = if s.mirror_view == 1 {
                c.sdk_options
            } else {
                c.presets
            };
            s.preset_idx = shift(s.preset_idx, delta, n);
        }
        false
    } else if s.tab == 4 {
        if s.focus_stats_versions {
            s.stats_ver_idx = shift(s.stats_ver_idx, delta, c.stats_versions);
        } else {
            s.stats_idx = shift(s.stats_idx, delta, c.stats_tools);
            s.stats_ver_idx = 0;
        }
        false
    } else if s.tab == 5 {
        s.settings_idx = shift(s.settings_idx, delta, 4 + c.registry_entries);
        false
    } else {
        false
    }
}

/// What the Tab key did: a status text to show, and whether the screen is
/// to be cleared (another tab was opened).
pub struct TabOutcome {
    pub status: Option<String>,
    pub clear: bool,
}

pub open spec fn plugin_view_status(view: u8) -> Seq<char> {
    if view == 1 {
        "插件市场（Enter 安装 / r 刷新）"@
    } else {
        "本地插件（空格 启停 / d/Del 删除 / o 打开目录）"@
    }
}

pub open spec fn mirror_view_status(view: u8) -> Seq<char> {
    if view == 1 {
        "下载加速镜像（Enter 切换）"@
    } else {
        "镜像源（Enter 应用预设 / a 添加 / d/Del 删除自定义）"@
    }
}

pub open spec fn opt_text(o: Option<String>) -> Option<Seq<char>> {
    match o {
        Some(t) => Some(t@),
        None => None,
    }
}

fn plugin_view_text(view: u8) -> (r: String)
    ensures
        r@ == plugin_view_status(view),
{
    if view == 1 {
        to_string(&chars_of("插件市场（Enter 安装 / r 刷新）"))
    } else {
        to_string(&chars_of("本地插件（空格 启停 / d/Del 删除 / o 打开目录）"))
    }
}

fn mirror_view_text(view: u8) -> (r: String)
    ensures
        r@ == mirror_view_status(view),
{
    if view == 1 {
        to_string(&chars_of("下载加速镜像（Enter 切换）"))
    } else {
        to_string(&chars_of("镜像源（Enter 应用预设 / a 添加 / d/Del 删除自定义）"))
    }
}

/// The Tab key: the tools, plugins, mirrors and statistics tabs switch
/// their focus or sub-view; the other tabs pass on to the next tab.
pub fn on_tab(s: &mut Selection) -> (r: TabOutcome)
    requires
        old(s).tab < 7,
        old(s).plugin_view <= 1,
    ensures
        old(s).tab == 0 ==> {
            &&& *final(s) == Selection { focus_versions: !old(s).focus_versions, ..*old(s) }
            &&& opt_text(r.status) == Some(
                if final(s).focus_versions {
                    "版本列表"@
                } else {
                    "工具列表"@
                },
            )
            &&& !r.clear
        },
        old(s).tab == 1 ==> {
            &&& *final(s) == Selection {
                plugin_view: (1 - old(s).plugin_view) as u8,
                plugin_idx: 0,
                ..*old(s)
            }
            &&& opt_text(r.status) == Some(plugin_view_status(final(s).plugin_view))
            &&& !r.clear
        },
        old(s).tab == 3 ==> {
            &&& *final(s) == Selection {
                focus_mirror_tools: !old(s).focus_mirror_tools,
                preset_idx: 0,
                ..*old(s)
            }
            &&& r.status is None
            &&& !r.clear
        },
        old(s).tab == 4 ==> {
            &&& *final(s) == Selection { focus_stats_versions: !old(s).focus_stats_versions, ..*old(s) }
            &&& r.status is None
            &&& !r.clear
        },
        (old(s).tab == 2 || old(s).tab >= 5) ==> {
            &&& *final(s) == Selection { tab: ((old(s).tab + 1) % 7) as usize, ..*old(s) }
            &&& r.status is None
            &&& r.clear
        },
{
    if s.tab == 0 {
        s.focus_versions = !s.focus_versions;
        let t = if s.focus_versions {
            to_string(&chars_of("版本列表"))
        } else {
            to_string(&chars_of("工具列表"))
        };
        TabOutcome { status: Some(t), clear: false }
    } else if s.tab == 1 {
        s.plugin_view = 1 - s.plugin_view;
        s.plugin_idx = 0;
        TabOutcome { status: Some(plugin_view_text(s.plugin_view)), clear: false }
    } else if s.tab == 3 {
        s.focus_mirror_tools = !s.focus_mirror_tools;
        s.preset_idx = 0;
        TabOutcome { status: None, clear: false }
    } else if s.tab == 4 {
        s.focus_stats_versions = !s.focus_stats_versions;
        TabOutcome { status: None, clear: false }
    } else {
        s.tab = (s.tab + 1) % TAB_COUNT;
        TabOutcome { status: None, clear: true }
    }
}

/// The `m` key: the plugins tab switches between local plugins and the
/// market, the mirrors tab between registry presets and download mirrors;
/// the selection in the switched view starts at its first row. Returns the
/// status text, or nothing on other tabs.
pub fn toggle_view(s: &mut Selection) -> (r: Option<String>)
    requires
        old(s).plugin_view <= 1,
        old(s).mirror_view <= 1,
    ensures
        old(s).tab == 1 ==> {
            &&& *final(s) == Selection {
                plugin_view: (1 - old(s).plugin_view) as u8,
                plugin_idx: 0,
                ..*old(s)
            }
            &&& opt_text(r) == Some(plugin_view_status(final(s).plugin_view))
        },
        old(s).tab == 3 ==> {
            &&& *final(s) == Selection {
                mirror_view: (1 - old(s).mirror_view) as u8,
                preset_idx: 0,
                ..*old(s)
            }
            &&& opt_text(r) == Some(mirror_view_status(final(s).mirror_view))
        },
        old(s).tab != 1 && old(s).tab != 3 ==> *final(s) == *old(s) && r is None,
{
    if s.tab == 1 {
        s.plugin_view = 1 - s.plugin_view;
        s.plugin_idx = 0;
        Some(plugin_view_text(s.plugin_view))
    } else if s.tab == 3 {
        s.mirror_view = 1 - s.mirror_view;
        s.preset_idx = 0;
        Some(mirror_view_text(s.mirror_view))
    } else {
        None
    }
}

/// The selection after row `idx` of list `t` was clicked: the row is
/// selected and its column takes the focus.
pub open spec fn selected(s: Selection, t: ClickTarget, idx: usize) -> Selection {
    match t {
        ClickTarget::ToolList => Selection { tool_idx: idx, focus_versions: false, ..s },
        ClickTarget::VersionList => Selection { ver_idx: idx, focus_versions: true, ..s },
        ClickTarget::PluginList => Selection { plugin_idx: idx, ..s },
        ClickTarget::TaskList => Selection { task_idx: idx, ..s },
        ClickTarget::MirrorToolList => Selection {
            mirror_idx: idx,
            focus_mirror_tools: true,
            preset_idx: if s.mirror_view == 0 {
                0
            } else {
                s.preset_idx
            },
            ..s
        },
        ClickTarget::MirrorPresetList => Selection {
            preset_idx: idx,
            focus_mirror_tools: false,
            ..s
        },
        ClickTarget::StatsToolList => Selection {
            stats_idx: idx,
            focus_stats_versions: false,
            stats_ver_idx: 0,
            ..s
        },
        ClickTarget::StatsVersionList => Selection {
            stats_ver_idx: idx,
            focus_stats_versions: true,
            ..s
        },
        ClickTarget::SettingList => Selection { settings_idx: idx, ..s },
    }
}

fn select_row(s: &mut Selection, t: ClickTarget, idx: usize)
    ensures
        *final(s) == selected(*old(s), t, idx),
{
    match t {
        ClickTarget::ToolList => {
            s.tool_idx = idx;
            s.focus_versions = false;
        },
        ClickTarget::VersionList => {
            s.ver_idx = idx;
            s.focus_versions = true;
        },
        ClickTarget::PluginList => {
            s.plugin_idx = idx;
        },
        ClickTarget::TaskList => {
            s.task_idx = idx;
        },
        ClickTarget::MirrorToolList => {
            s.mirror_idx = idx;
            s.focus_mirror_tools = true;
            if s.mirror_view == 0 {
                s.preset_idx = 0;
            }
        },
        ClickTarget::MirrorPresetList => {
            s.preset_idx = idx;
            s.focus_mirror_tools = false;
        },
        ClickTarget::StatsToolList => {
            s.stats_idx = idx;
            s.focus_stats_versions = false;
            s.stats_ver_idx = 0;
        },
        ClickTarget::StatsVersionList => {
            s.stats_ver_idx = idx;
            s.focus_stats_versions = true;
        },
        ClickTarget::SettingList => {
            s.settings_idx = idx;
        },
    }
}

/// A single click selects the row (it never installs, removes or switches
/// anything). Returns the status text; when a tool was clicked the caller
/// reloads that tool's versions and distribution.
pub fn on_list_click(s: &mut Selection, t: ClickTarget, idx: usize) -> (status: String)
    ensures
        *final(s) == selected(*old(s), t, idx),
        status@ == "鼠标已选中列表项（Enter 操作 / 空格 开关）"@,
{
    select_row(s, t, idx);
    to_string(&chars_of("鼠标已选中列表项（Enter 操作 / 空格 开关）"))
}

/// What a double click on a row asks for besides selecting it.
#[derive(Debug, Clone, Copy, PartialEq, Eq, Structural)]
pub enum ListAction {
    /// Reload the clicked tool and fetch its available versions.
    FetchVersions,
    /// Switch to or install the clicked version.
    ActOnVersion,
    InstallRemotePlugin,
    TogglePlugin,
    CancelTask,
    ActivateMirror,
    ConfirmUninstall,
    ActivateSetting,
    /// Only a selection, as a single click makes.
    Select,
}

pub open spec fn double_click_action(plugin_view: u8, t: ClickTarget) -> ListAction {
    match t {
        ClickTarget::ToolList => ListAction::FetchVersions,
        ClickTarget::VersionList => ListAction::ActOnVersion,
        ClickTarget::PluginList => if plugin_view == 1 {
            ListAction::InstallRemotePlugin
        } else {
            ListAction::TogglePlugin
        },
        ClickTarget::TaskList => ListAction::CancelTask,
        ClickTarget::MirrorPresetList => ListAction::ActivateMirror,
        ClickTarget::StatsVersionList => ListAction::ConfirmUninstall,
        ClickTarget::SettingList => ListAction::ActivateSetting,
        ClickTarget::MirrorToolList => ListAction::Select,
        ClickTarget::StatsToolList => ListAction::Select,
    }
}

/// A double click selects the row like a single click and then acts on it
/// as Enter would; on the left lists of the mirrors and statistics tabs it
/// only selects, so that no preset is applied and no tool removed by
/// accident.
pub fn on_list_double_click(s: &mut Selection, t: ClickTarget, idx: usize) -> (r: ListAction)
    ensures
        *final(s) == selected(*old(s), t, idx),
        r == double_click_action(old(s).plugin_view, t),
{
    let view = s.plugin_view;
    select_row(s, t, idx);
    match t {
        ClickTarget::ToolList => ListAction::FetchVersions,
        ClickTarget::VersionList => ListAction::ActOnVersion,
        ClickTarget::PluginList => if view == 1 {
            ListAction::InstallRemotePlugin
        } else {
            ListAction::TogglePlugin
        },
        ClickTarget::TaskList => ListAction::CancelTask,
        ClickTarget::MirrorPresetList => ListAction::ActivateMirror,
        ClickTarget::StatsVersionList => ListAction::ConfirmUninstall,
        ClickTarget::SettingList => ListAction::ActivateSetting,
        ClickTarget::MirrorToolList => ListAction::Select,
        ClickTarget::StatsToolList => ListAction::Select,
    }
}

/// A click is the second of a double click when it hits the same row of
/// the same list as the previous click, less than 400 ms later.
pub fn is_double_click(
    last: Option<(ClickTarget, usize)>,
    elapsed_ms: u64,
    t: ClickTarget,
    idx: usize,
) -> (r: bool)
    ensures
        r == (match last {
            Some((lt, li)) => lt == t && li == idx && elapsed_ms < 400,
            None => false,
        }),
{
    match last {
        Some((lt, li)) => lt == t && li == idx && elapsed_ms < 400,
        None => false,
    }
}

/// The titles of the tabs, in order; the tab bar and the click test use
/// the same titles, separated by `TAB_SEP`.
pub fn tab_titles() -> (r: Vec<&'static str>)
    ensures
        r.len() == TAB_COUNT,
        r@.map_values(|t: &str| t@) == seq![
            " 1工具 "@,
            " 2插件 "@,
            " 3队列 "@,
            " 4镜像 "@,
            " 5统计 "@,
            " 6设置 "@,
            " 7关于 "@,
        ],
{
    vec![" 1工具 ", " 2插件 ", " 3队列 ", " 4镜像 ", " 5统计 ", " 6设置 ", " 7关于 "]
}

/// The separator between two tab titles.
pub const TAB_SEP: &'static str = " | ";

/// The cells taken by the first `i` tab titles, each with the separator
/// after it.
pub open spec fn tabs_offset(widths: Seq<u16>, sep: u16, i: int) -> int
    decreases i,
{
    if i <= 0 || widths.len() == 0 {
        0
    } else if i > widths.len() {
        tabs_offset(widths, sep, widths.len() as int)
    } else {
        tabs_offset(widths, sep, i - 1) + widths[i - 1] + sep
    }
}

pub proof fn lemma_tabs_offset_mono(widths: Seq<u16>, sep: u16, i: int, j: int)
    requires
        0 <= i <= j <= widths.len(),
    ensures
        0 <= tabs_offset(widths, sep, i) <= tabs_offset(widths, sep, j),
    decreases j,
{
    if j > 0 {
        if i == j {
            lemma_tabs_offset_mono(widths, sep, 0, j - 1);
        } else {
            lemma_tabs_offset_mono(widths, sep, i, j - 1);
        }
    }
}

/// Tab `i` covers its title and the separator after it, from the first
/// column inside the bar's left border.
pub open spec fn on_tab_title(col: u16, bar_x: u16, widths: Seq<u16>, sep: u16, i: int) -> bool {
    bar_x + 1 + tabs_offset(widths, sep, i) <= col < bar_x + 1 + tabs_offset(widths, sep, i + 1)
}

/// The tab under a click: only on the bar's first two rows (its top border
/// and the row of titles), at the columns of a title or the separator
/// after it. `widths` are the display widths of the titles.
pub fn tab_at(col: u16, row: u16, bar_x: u16, bar_y: u16, widths: &[u16], sep_w: u16) -> (r: Option<usize>)
    requires
        bar_y < u16::MAX,
        bar_x + 1 + tabs_offset(widths@, sep_w, widths.len() as int) <= u16::MAX,
    ensures
        match r {
            Some(i) => {
                &&& row == bar_y || row == bar_y + 1
                &&& i < widths.len()
                &&& on_tab_title(col, bar_x, widths@, sep_w, i as int)
            },
            None => !(row == bar_y || row == bar_y + 1) || forall|i: int|
                0 <= i < widths.len() ==> !on_tab_title(col, bar_x, widths@, sep_w, i),
        },
{
    let top = bar_y + 1;
    if row != top && row != bar_y {
        return None;
    }
    proof {
        lemma_tabs_offset_mono(widths@, sep_w, 0, widths.len() as int);
    }
    let mut x: u16 = bar_x + 1;
    let mut i: usize = 0;
    while i < widths.len()
        invariant
            i <= widths.len(),
            row == bar_y || row == bar_y + 1,
            x == bar_x + 1 + tabs_offset(widths@, sep_w, i as int),
            bar_x + 1 + tabs_offset(widths@, sep_w, widths.len() as int) <= u16::MAX,
            forall|j: int| 0 <= j < i ==> !on_tab_title(col, bar_x, widths@, sep_w, j),
        decreases widths.len() - i,
    {
        proof {
            lemma_tabs_offset_mono(widths@, sep_w, i + 1, widths.len() as int);
            assert(tabs_offset(widths@, sep_w, i + 1) == tabs_offset(widths@, sep_w, i as int)
                + widths@[i as int] + sep_w);
        }
        let end = x + widths[i] + sep_w;
        if col >= x && col < end {
            return Some(i);
        }
        x = end;
        i = i + 1;
    }
    None
}

/// A list drawn with a border, as recorded when the screen was drawn.
#[derive(Debug, Clone, Copy, PartialEq, Eq, Structural)]
pub struct ListArea {
    pub target: ClickTarget,
    pub x: u16,
    pub y: u16,
    pub width: u16,
    pub height: u16,
}

/// The area lies on the screen, so its inner coordinates fit in `u16`.
pub open spec fn area_ok(a: ListArea) -> bool {
    a.x < u16::MAX && a.y < u16::MAX && a.x + a.width <= u16::MAX && a.y + a.height <= u16::MAX
}

pub open spec fn inner_len(n: u16) -> int {
    if n >= 2 {
        n - 2
    } else {
        0
    }
}

/// The position lies inside the border of the area.
pub open spec fn inside(a: ListArea, col: u16, row: u16) -> bool {
    &&& a.x + 1 <= col < a.x + 1 + inner_len(a.width)
    &&& a.y + 1 <= row < a.y + 1 + inner_len(a.height)
}

/// The list row under a click, going through the areas in the order they
/// were recorded: inside an area the row is the offset from its first inner
/// row; a click inside an empty list hits nothing, and a click below the
/// last row looks at the areas after it.
pub open spec fn hit_from(
    areas: Seq<ListArea>,
    k: int,
    col: u16,
    row: u16,
    s: Selection,
    c: ListCounts,
) -> Option<(ClickTarget, usize)>
    decreases areas.len() - k,
{
    if k < 0 || k >= areas.len() {
        None
    } else if inside(areas[k], col, row) {
        let n = count_of(s, c, areas[k].target);
        let idx = row - (areas[k].y + 1);
        if n == 0 {
            None
        } else if idx < n {
            Some((areas[k].target, idx as usize))
        } else {
            hit_from(areas, k + 1, col, row, s, c)
        }
    } else {
        hit_from(areas, k + 1, col, row, s, c)
    }
}

/// The list and row under a click.
pub fn hit_list(col: u16, row: u16, areas: &[ListArea], s: &Selection, c: &ListCounts) -> (r: Option<
    (ClickTarget, usize),
>)
    requires
        forall|k: int| 0 <= k < areas.len() ==> area_ok(#[trigger] areas[k]),
        c.registry_entries <= usize::MAX - 4,
    ensures
        r == hit_from(areas@, 0, col, row, *s, *c),
{
    let mut k: usize = 0;
    while k < areas.len()
        invariant
            k <= areas.len(),
            forall|j: int| 0 <= j < areas.len() ==> area_ok(#[trigger] areas[j]),
            c.registry_entries <= usize::MAX - 4,
            hit_from(areas@, 0, col, row, *s, *c) == hit_from(areas@, k as int, col, row, *s, *c),
        decreases areas.len() - k,
    {
        let a = areas[k];
        assert(area_ok(areas@[k as int]));
        let ix: u16 = a.x + 1;
        let iy: u16 = a.y + 1;
        let iw: u16 = a.width.saturating_sub(2);
        let ih: u16 = a.height.saturating_sub(2);
        if col >= ix && col < ix + iw && row >= iy && row < iy + ih {
            let n = list_count(s, c, a.target);
            if n == 0 {
                return None;
            }
            let idx: usize = (row - iy) as usize;
            if idx < n {
                return Some((a.target, idx));
            }
        }
        k = k + 1;
    }
    None
}

} // verus!
