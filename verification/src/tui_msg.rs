//! Messages that reach the terminal UI while it runs (what the manager
//! reports, and the results of its own background work) and how each one
//! changes what the UI shows.

use vstd::prelude::*;

use crate::text::{append, append_str, chars_of, chars_of_string, decimal, dec_digits, to_string};
use crate::tui_nav::Selection;
use crate::tui_tabs::versions_status;

verus! {

/// What the manager reports while it works. The payload of a progress
/// report and of a queue update (the download's figures, the task list)
/// stays with the caller, which shows it as it came.
pub enum ManagerEvent {
    Progress,
    InstallStatus { tool: String, version: String, detail: Option<String> },
    Error { tool: String, code: String, message: String },
    VersionChanged { tool: String, version: String },
    QueueUpdated,
}

/// A message to the UI: a manager event, or the result of work the UI
/// started (a version list, the plugin market, a status line).
pub enum UiMsg {
    Manager(ManagerEvent),
    Versions { tool: String, versions: Vec<String> },
    /// The plugin market arrived with this many plugins (the list itself
    /// stays with the caller).
    RemotePlugins { count: usize },
    Status(String),
}

/// The part of the UI's state that messages change.
pub struct MsgState {
    pub selection: Selection,
    pub versions: Vec<String>,
    pub status: String,
    pub error: Option<String>,
}

/// What the caller does after a message.
#[derive(Debug, Clone, Copy, PartialEq, Eq, Structural)]
pub struct MsgEffects {
    /// Keep the progress report that came with the event and reload the
    /// task list from the queue.
    pub keep_progress: bool,
    /// Keep the task list that came with the event.
    pub keep_tasks: bool,
    /// Keep the plugin market list that came with the message.
    pub keep_remote_plugins: bool,
    /// Reload the tool list (installed and current versions changed).
    pub refresh_tools: bool,
    /// Reload the usage statistics.
    pub refresh_stats: bool,
}

pub open spec fn no_effects() -> MsgEffects {
    MsgEffects {
        keep_progress: false,
        keep_tasks: false,
        keep_remote_plugins: false,
        refresh_tools: false,
        refresh_stats: false,
    }
}

pub open spec fn opt_or_empty(o: Option<String>) -> Seq<char> {
    match o {
        Some(s) => s@,
        None => Seq::empty(),
    }
}

/// The status line of an install step: tool, version and detail.
pub open spec fn install_status_text(tool: Seq<char>, version: Seq<char>, detail: Seq<char>) -> Seq<char> {
    tool + " "@ + version + " "@ + detail
}

/// The error line of a failed operation.
pub open spec fn error_text(tool: Seq<char>, code: Seq<char>, message: Seq<char>) -> Seq<char> {
    "["@ + tool + "] "@ + code + ": "@ + message
}

pub open spec fn version_changed_text(tool: Seq<char>, version: Seq<char>) -> Seq<char> {
    "✓ "@ + tool + " 已切换为全局默认 "@ + version
}

pub open spec fn market_text(count: nat) -> Seq<char> {
    "插件市场共 "@ + dec_digits(count) + " 个插件（Enter 安装 / r 刷新）"@
}

/// The version-list status: the tool, its distribution when it has one,
/// and the number of versions.
pub open spec fn versions_text(tool: Seq<char>, distribution: Option<&String>, count: nat) -> Seq<char> {
    tool + (match distribution {
        Some(d) => " · "@ + d@,
        None => ""@,
    }) + " 可用版本 "@ + dec_digits(count) + " 个（Tab 在版本列表导航）"@
}

/// The UI's answer to a message. `distribution` is the display name of the
/// selected tool's distribution, when it has distributions.
///
/// A status message and a queue update also reload the usage statistics;
/// a version change and a queue update reload the tool list; a version
/// list moves the focus to it, at its first row; the plugin market puts
/// the selection at its first plugin. Everything not named stays as it was.
pub fn on_msg(st: &mut MsgState, msg: UiMsg, distribution: Option<&String>) -> (r: MsgEffects)
    ensures
        r.refresh_stats == (msg is Status || (msg matches UiMsg::Manager(e) && e is QueueUpdated)),
        match msg {
            UiMsg::Manager(ManagerEvent::Progress) => {
                &&& r == MsgEffects { keep_progress: true, ..no_effects() }
                &&& *final(st) == *old(st)
            },
            UiMsg::Manager(ManagerEvent::InstallStatus { tool, version, detail }) => {
                &&& r == no_effects()
                &&& final(st).status@ == install_status_text(tool@, version@, opt_or_empty(detail))
                &&& final(st).selection == old(st).selection
                &&& final(st).versions == old(st).versions
                &&& final(st).error == old(st).error
            },
            UiMsg::Manager(ManagerEvent::Error { tool, code, message }) => {
                &&& r == no_effects()
                &&& final(st).error matches Some(e) && e@ == error_text(tool@, code@, message@)
                &&& final(st).selection == old(st).selection
                &&& final(st).versions == old(st).versions
                &&& final(st).status == old(st).status
            },
            UiMsg::Manager(ManagerEvent::VersionChanged { tool, version }) => {
                &&& r == MsgEffects { refresh_tools: true, ..no_effects() }
                &&& final(st).status@ == version_changed_text(tool@, version@)
                &&& final(st).selection == old(st).selection
                &&& final(st).versions == old(st).versions
                &&& final(st).error == old(st).error
            },
            UiMsg::Manager(ManagerEvent::QueueUpdated) => {
                &&& r == MsgEffects { keep_tasks: true, refresh_tools: true, refresh_stats: true, ..no_effects() }
                &&& *final(st) == *old(st)
            },
            UiMsg::Versions { tool, versions } => {
                &&& r == no_effects()
                &&& final(st).versions == versions
                &&& final(st).selection == (Selection { ver_idx: 0, focus_versions: true, ..old(st).selection })
                &&& final(st).status@ == versions_text(tool@, distribution, versions.len() as nat)
                &&& final(st).error == old(st).error
            },
            UiMsg::RemotePlugins { count } => {
                &&& r == MsgEffects { keep_remote_plugins: true, ..no_effects() }
                &&& final(st).selection == (Selection { plugin_idx: 0, ..old(st).selection })
                &&& final(st).status@ == market_text(count as nat)
                &&& final(st).versions == old(st).versions
                &&& final(st).error == old(st).error
            },
            UiMsg::Status(s) => {
                &&& r == MsgEffects { refresh_stats: true, ..no_effects() }
                &&& final(st).status == s
                &&& final(st).selection == old(st).selection
                &&& final(st).versions == old(st).versions
                &&& final(st).error == old(st).error
            },
        },
{
    let none = MsgEffects {
        keep_progress: false,
        keep_tasks: false,
        keep_remote_plugins: false,
        refresh_tools: false,
        refresh_stats: false,
    };
    match msg {
        UiMsg::Manager(evt) => match evt {
            ManagerEvent::Progress => MsgEffects { keep_progress: true, ..none },
            ManagerEvent::InstallStatus { tool, version, detail } => {
                let mut t = chars_of_string(&tool);
                append_str(&mut t, " ");
                append(&mut t, &chars_of_string(&version));
                append_str(&mut t, " ");
                match detail {
                    Some(d) => append(&mut t, &chars_of_string(&d)),
                    None => {},
                }
                st.status = to_string(&t);
                none
            },
            ManagerEvent::Error { tool, code, message } => {
                let mut t = chars_of("[");
                append(&mut t, &chars_of_string(&tool));
                append_str(&mut t, "] ");
                append(&mut t, &chars_of_string(&code));
                append_str(&mut t, ": ");
                append(&mut t, &chars_of_string(&message));
                st.error = Some(to_string(&t));
                none
            },
            ManagerEvent::VersionChanged { tool, version } => {
                let mut t = chars_of("✓ ");
                append(&mut t, &chars_of_string(&tool));
                append_str(&mut t, " 已切换为全局默认 ");
                append(&mut t, &chars_of_string(&version));
                st.status = to_string(&t);
                MsgEffects { refresh_tools: true, ..none }
            },
            ManagerEvent::QueueUpdated => MsgEffects {
                keep_tasks: true,
                refresh_tools: true,
                refresh_stats: true,
                ..none
            },
        },
        UiMsg::Versions { tool, versions } => {
            let n = versions.len() as u64;
            st.status = versions_status(&tool, distribution, n);
            st.versions = versions;
            st.selection.ver_idx = 0;
            st.selection.focus_versions = true;
            none
        },
        UiMsg::RemotePlugins { count } => {
            let mut t = chars_of("插件市场共 ");
            append(&mut t, &decimal(count as u64));
            append_str(&mut t, " 个插件（Enter 安装 / r 刷新）");
            st.status = to_string(&t);
            st.selection.plugin_idx = 0;
            MsgEffects { keep_remote_plugins: true, ..none }
        },
        UiMsg::Status(s) => {
            st.status = s;
            MsgEffects { refresh_stats: true, ..none }
        },
    }
}

} // verus!
