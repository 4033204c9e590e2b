//! Keyboard handling of the terminal UI: which command a key means in the
//! current view, text input in the input box, the confirmation box, and
//! the checks made when an input is submitted. The caller carries out the
//! commands.

use vstd::prelude::*;

use crate::error::{EnvHiveError, EnvHiveErrorKind};
use crate::term::{ttl_splits_char, ttl_valid, valid_ttl};
use crate::text::{
    append, append_str, chars_of, chars_of_string, debug_quote, debug_str, eq, starts_with,
    starts_with_v, strip_trail, strip_trail_v, to_string, trim, trim_v,
};

verus! {

/// The number of tabs.
pub const TAB_COUNT: usize = 7;

/// A key press.
#[derive(Debug, Clone, Copy, PartialEq, Eq, Structural)]
pub enum Key {
    Char(char),
    Esc,
    Tab,
    Up,
    Down,
    Enter,
    Backspace,
    Delete,
    Other,
}

/// What the key handling depends on: the tab, the sub-views and focus, and
/// whether a modal box is open.
#[derive(Debug, Clone, Copy, PartialEq, Eq, Structural)]
pub struct TuiMode {
    pub tab: usize,
    /// Plugins tab: 0 local plugins, 1 market.
    pub plugin_view: u8,
    /// Mirrors tab: 0 registry presets, 1 download mirrors.
    pub mirror_view: u8,
    pub focus_versions: bool,
    pub confirm_open: bool,
    pub input_open: bool,
}

/// What a key asks for.
#[derive(Debug, Clone, Copy, PartialEq, Eq, Structural)]
pub enum KeyCommand {
    /// Handled by the confirmation box.
    Confirm(Key),
    /// Handled by the input box.
    Input(Key),
    Quit,
    SwitchTab(usize),
    /// Tab: a sub-view or focus change in tabs that have one.
    ToggleFocus,
    NextTab(usize),
    MoveSel(i8),
    Enter,
    Space,
    Refresh,
    Add,
    CycleDistribution,
    Delete,
    TogglePluginView,
    ToggleMirrorView,
    OpenPluginDir,
    ConfirmUninstall,
    InstallRemotePlugin,
    ClearFinished,
    EditSetting,
    CancelTask,
    Nothing,
}

/// The command of a key.
pub open spec fn command_of(m: TuiMode, k: Key) -> KeyCommand {
    if m.confirm_open {
        KeyCommand::Confirm(k)
    } else if m.input_open {
        KeyCommand::Input(k)
    } else {
        match k {
            Key::Char(c) => if c == 'q' {
                KeyCommand::Quit
            } else if '1' <= c && c <= '7' {
                KeyCommand::SwitchTab(((c as u32) - ('1' as u32)) as usize)
            } else if c == ' ' {
                KeyCommand::Space
            } else if c == 'r' {
                KeyCommand::Refresh
            } else if c == 'a' {
                KeyCommand::Add
            } else if c == 'd' {
                if m.tab == 0 {
                    KeyCommand::CycleDistribution
                } else {
                    KeyCommand::Delete
                }
            } else if c == 'm' {
                if m.tab == 1 {
                    KeyCommand::TogglePluginView
                } else if m.tab == 3 {
                    KeyCommand::ToggleMirrorView
                } else {
                    KeyCommand::Nothing
                }
            } else if c == 'o' {
                if m.tab == 1 && m.plugin_view == 0 {
                    KeyCommand::OpenPluginDir
                } else {
                    KeyCommand::Nothing
                }
            } else if c == 'u' {
                if m.tab == 4 {
                    KeyCommand::ConfirmUninstall
                } else {
                    KeyCommand::Nothing
                }
            } else if c == 'i' {
                if m.tab == 1 && m.plugin_view == 1 {
                    KeyCommand::InstallRemotePlugin
                } else {
                    KeyCommand::Nothing
                }
            } else if c == 'x' {
                if m.tab == 2 {
                    KeyCommand::ClearFinished
                } else {
                    KeyCommand::Nothing
                }
            } else if c == 'e' {
                if m.tab == 5 {
                    KeyCommand::EditSetting
                } else {
                    KeyCommand::Nothing
                }
            } else if c == 'c' {
                if m.tab == 2 {
                    KeyCommand::CancelTask
                } else {
                    KeyCommand::Nothing
                }
            } else if c == 'D' {
                if m.tab == 0 {
                    KeyCommand::CycleDistribution
                } else {
                    KeyCommand::Nothing
                }
            } else {
                KeyCommand::Nothing
            },
            Key::Esc => KeyCommand::Quit,
            Key::Tab => if m.tab == 0 || m.tab == 1 || m.tab == 3 || m.tab == 4 {
                KeyCommand::ToggleFocus
            } else {
                KeyCommand::NextTab(((m.tab + 1) % 7) as usize)
            },
            Key::Up => KeyCommand::MoveSel(-1i8),
            Key::Down => KeyCommand::MoveSel(1i8),
            Key::Enter => KeyCommand::Enter,
            Key::Delete => KeyCommand::Delete,
            _ => KeyCommand::Nothing,
        }
    }
}

/// The command a key stands for in the current mode; a confirmation box
/// takes keys before an input box, and both before the tabs.
pub fn key_command(m: TuiMode, k: Key) -> (r: KeyCommand)
    requires
        m.tab < 7,
    ensures
        r == command_of(m, k),
{
    if m.confirm_open {
        return KeyCommand::Confirm(k);
    }
    if m.input_open {
        return KeyCommand::Input(k);
    }
    match k {
        Key::Char(c) => {
            if c == 'q' {
                KeyCommand::Quit
            } else if '1' <= c && c <= '7' {
                let n = (c as u32) - ('1' as u32);
                KeyCommand::SwitchTab(n as usize)
            } else if c == ' ' {
                KeyCommand::Space
            } else if c == 'r' {
                KeyCommand::Refresh
            } else if c == 'a' {
                KeyCommand::Add
            } else if c == 'd' {
                if m.tab == 0 {
                    KeyCommand::CycleDistribution
                } else {
                    KeyCommand::Delete
                }
            } else if c == 'm' {
                if m.tab == 1 {
                    KeyCommand::TogglePluginView
                } else if m.tab == 3 {
                    KeyCommand::ToggleMirrorView
                } else {
                    KeyCommand::Nothing
                }
            } else if c == 'o' {
                if m.tab == 1 && m.plugin_view == 0 {
                    KeyCommand::OpenPluginDir
                } else {
                    KeyCommand::Nothing
                }
            } else if c == 'u' {
                if m.tab == 4 {
                    KeyCommand::ConfirmUninstall
                } else {
                    KeyCommand::Nothing
                }
            } else if c == 'i' {
                if m.tab == 1 && m.plugin_view == 1 {
                    KeyCommand::InstallRemotePlugin
                } else {
                    KeyCommand::Nothing
                }
            } else if c == 'x' {
                if m.tab == 2 {
                    KeyCommand::ClearFinished
                } else {
                    KeyCommand::Nothing
                }
            } else if c == 'e' {
                if m.tab == 5 {
                    KeyCommand::EditSetting
                } else {
                    KeyCommand::Nothing
                }
            } else if c == 'c' {
                if m.tab == 2 {
                    KeyCommand::CancelTask
                } else {
                    KeyCommand::Nothing
                }
            } else if c == 'D' {
                if m.tab == 0 {
                    KeyCommand::CycleDistribution
                } else {
                    KeyCommand::Nothing
                }
            } else {
                KeyCommand::Nothing
            }
        },
        Key::Esc => KeyCommand::Quit,
        Key::Tab => {
            if m.tab == 0 || m.tab == 1 || m.tab == 3 || m.tab == 4 {
                KeyCommand::ToggleFocus
            } else {
                KeyCommand::NextTab((m.tab + 1) % TAB_COUNT)
            }
        },
        Key::Up => KeyCommand::MoveSel(-1),
        Key::Down => KeyCommand::MoveSel(1),
        Key::Enter => KeyCommand::Enter,
        Key::Delete => KeyCommand::Delete,
        _ => KeyCommand::Nothing,
    }
}

/// The tab selected after switching to `t`: only an existing, different tab
/// changes it (and the screen is cleared).
pub fn switch_tab(current: usize, t: usize) -> (r: Option<usize>)
    ensures
        r == (if t < 7 && t != current {
            Some(t)
        } else {
            None::<usize>
        }),
{
    if t < TAB_COUNT && t != current {
        Some(t)
    } else {
        None
    }
}

// ---------------------------------------------------------------------------
// Input box
// ---------------------------------------------------------------------------

/// The settings entered through the input box; registry and mirror entries
/// take two steps (name, then address).
#[derive(Debug, Clone, Copy, PartialEq, Eq, Structural)]
pub enum InputField {
    ProxyUrl,
    CacheTtl,
    StoragePath,
    RegistryName,
    RegistryUrl,
    MirrorName,
    MirrorUrl,
}

/// What a key does in the input box.
pub enum InputOutcome {
    /// The text was edited (or the key ignored).
    Editing,
    /// Enter: the trimmed text is submitted.
    Submit(String),
    /// Esc: the box is closed.
    Cancel,
}

/// The input text after a key: a character is added, Backspace removes the
/// last one, other keys leave it.
pub open spec fn edited(b: Seq<char>, k: Key) -> Seq<char> {
    match k {
        Key::Char(c) => b.push(c),
        Key::Backspace => if b.len() > 0 {
            b.drop_last()
        } else {
            b
        },
        _ => b,
    }
}

/// Backspace takes back the character just typed.
pub proof fn lemma_backspace_undoes_char(b: Seq<char>, c: char)
    ensures
        edited(edited(b, Key::Char(c)), Key::Backspace) == b,
{
    assert(b.push(c).drop_last() =~= b);
}

/// Edits the input text: characters are added, Backspace removes the last
/// one; Enter submits the trimmed text, Esc cancels.
pub fn input_key(buffer: &mut String, k: Key) -> (r: InputOutcome)
    ensures
        final(buffer)@ == edited(old(buffer)@, k),
        match k {
            Key::Enter => r matches InputOutcome::Submit(v) && v@ == trim(old(buffer)@),
            Key::Esc => r is Cancel,
            _ => r is Editing,
        },
{
    match k {
        Key::Char(c) => {
            let mut v = chars_of_string(buffer);
            v.push(c);
            *buffer = to_string(&v);
            InputOutcome::Editing
        },
        Key::Backspace => {
            let mut v = chars_of_string(buffer);
            if v.len() > 0 {
                v.pop();
            }
            *buffer = to_string(&v);
            InputOutcome::Editing
        },
        Key::Enter => InputOutcome::Submit(to_string(&trim_v(&chars_of_string(buffer)))),
        Key::Esc => InputOutcome::Cancel,
        _ => InputOutcome::Editing,
    }
}

/// The first step of a two-step entry, kept until the second is submitted:
/// the repository name, the tool and the name of a custom mirror.
pub struct PendingInput {
    pub registry_name: Option<String>,
    pub mirror_tool: Option<String>,
    pub mirror_name: Option<String>,
}

/// What a submitted input asks for.
pub enum CommitAction {
    SetProxy(Option<String>),
    SaveCacheTtl(String),
    SaveStoragePath(String),
    /// Open the box again for the next step, with this prompt and status.
    NextInput { field: InputField, prompt: String, status: String },
    AddRegistry { name: String, url: String },
    AddMirror { tool: String, name: String, url: String },
}

pub open spec fn http_prefixed(u: Seq<char>) -> bool {
    starts_with(u, "http://"@) || starts_with(u, "https://"@)
}

pub open spec fn opt_str(o: Option<String>) -> Option<Seq<char>> {
    match o {
        Some(s) => Some(s@),
        None => None,
    }
}

fn config_error(m: &str) -> (e: EnvHiveError)
    ensures
        e.kind == EnvHiveErrorKind::Config,
        e.message@ == m@,
{
    EnvHiveError::new(EnvHiveErrorKind::Config, to_string(&chars_of(m)))
}

fn is_http(v: &Vec<char>) -> (r: bool)
    ensures
        r == http_prefixed(v@),
{
    starts_with_v(v, &chars_of("http://")) || starts_with_v(v, &chars_of("https://"))
}

/// Checks a submitted input and says what to do with it. `registry_urls`
/// are the addresses of the repositories configured.
pub fn commit_input(
    field: InputField,
    value: String,
    pending: &mut PendingInput,
    proxy_enabled: bool,
    registry_urls: &Vec<String>,
) -> (r: Result<CommitAction, EnvHiveError>)
    requires
        field == InputField::CacheTtl ==> !ttl_splits_char(value@),
    ensures
        field == InputField::ProxyUrl ==> (r matches Ok(CommitAction::SetProxy(u)) && opt_str(u)
            == (if value@.len() == 0 {
            None
        } else {
            Some(value@)
        })),
        field == InputField::CacheTtl ==> (if ttl_valid(value@) {
            r matches Ok(CommitAction::SaveCacheTtl(t)) && t@ == value@
        } else {
            r matches Err(e) && e.kind == EnvHiveErrorKind::Config && e.message@ == "非法缓存 TTL: "@
                + debug_str(value@) + "（示例: 12h / 3600 / -1 / 0）"@
        }),
        field == InputField::StoragePath ==> (if value@.len() == 0 {
            r matches Err(e) && e.message@ == "存储路径不能为空"@
        } else {
            r matches Ok(CommitAction::SaveStoragePath(p)) && p@ == value@
        }),
        field == InputField::RegistryName ==> (if value@.len() == 0 {
            r matches Err(e) && e.message@ == "仓库名不能为空"@ && final(pending).registry_name
                == old(pending).registry_name
        } else {
            &&& opt_str(final(pending).registry_name) == Some(value@)
            &&& r matches Ok(CommitAction::NextInput { field: f, prompt, status }) && f
                == InputField::RegistryUrl && prompt@ == "添加插件仓库：索引 JSON 完整地址"@
                && status@ == "继续输入仓库索引地址…"@
        }),
        field == InputField::RegistryUrl ==> (if value@.len() == 0 || !http_prefixed(value@) {
            r matches Err(e) && e.message@ == "仓库地址需以 http:// 或 https:// 开头"@
                && final(pending).registry_name == old(pending).registry_name
        } else {
            &&& final(pending).registry_name is None
            &&& if exists|i: int|
                0 <= i < registry_urls@.len() && registry_urls@[i]@ == strip_trail(value@, '/') {
                r matches Err(e) && e.message@ == "该仓库地址已存在"@
            } else {
                r matches Ok(CommitAction::AddRegistry { name, url }) && name@ == match opt_str(
                    old(pending).registry_name,
                ) {
                    Some(n) => n,
                    None => "仓库"@,
                } && url@ == strip_trail(value@, '/')
            }
        }),
        field == InputField::MirrorName ==> (if value@.len() == 0 {
            r matches Err(e) && e.message@ == "镜像名称不能为空"@
        } else {
            &&& opt_str(final(pending).mirror_name) == Some(value@)
            &&& r matches Ok(CommitAction::NextInput { field: f, prompt, status }) && f
                == InputField::MirrorUrl && prompt@ == "为 "@ + match opt_str(old(pending).mirror_tool) {
                Some(t) => t,
                None => Seq::empty(),
            } + " 添加自定义镜像源：地址"@ && status@ == "继续输入镜像地址…"@
        }),
        field == InputField::MirrorUrl ==> {
            &&& final(pending).mirror_name is None
            &&& if value@.len() == 0 || !http_prefixed(value@) {
                r matches Err(e) && e.message@ == "镜像地址需以 http:// 或 https:// 开头"@
            } else {
                r matches Ok(CommitAction::AddMirror { tool, name, url }) && tool@ == match opt_str(
                    old(pending).mirror_tool,
                ) {
                    Some(t) => t,
                    None => Seq::empty(),
                } && name@ == match opt_str(old(pending).mirror_name) {
                    Some(n) => n,
                    None => Seq::empty(),
                } && url@ == value@
            }
        },
        r matches Err(e) ==> e.kind == EnvHiveErrorKind::Config,
{
    let v = chars_of_string(&value);
    match field {
        InputField::ProxyUrl => {
            let url = if v.len() == 0 {
                None
            } else {
                Some(value)
            };
            let _ = proxy_enabled;
            Ok(CommitAction::SetProxy(url))
        },
        InputField::CacheTtl => {
            if !valid_ttl(value.as_str()) {
                let mut m: Vec<char> = Vec::new();
                append_str(&mut m, "非法缓存 TTL: ");
                append(&mut m, &debug_quote(&v));
                append_str(&mut m, "（示例: 12h / 3600 / -1 / 0）");
                return Err(EnvHiveError::new(EnvHiveErrorKind::Config, to_string(&m)));
            }
            Ok(CommitAction::SaveCacheTtl(value))
        },
        InputField::StoragePath => {
            if v.len() == 0 {
                return Err(config_error("存储路径不能为空"));
            }
            Ok(CommitAction::SaveStoragePath(value))
        },
        InputField::RegistryName => {
            if v.len() == 0 {
                return Err(config_error("仓库名不能为空"));
            }
            pending.registry_name = Some(value);
            Ok(
                CommitAction::NextInput {
                    field: InputField::RegistryUrl,
                    prompt: to_string(&chars_of("添加插件仓库：索引 JSON 完整地址")),
                    status: to_string(&chars_of("继续输入仓库索引地址…")),
                },
            )
        },
        InputField::RegistryUrl => {
            if v.len() == 0 || !is_http(&v) {
                return Err(config_error("仓库地址需以 http:// 或 https:// 开头"));
            }
            let name = match pending.registry_name.take() {
                Some(n) => n,
                None => to_string(&chars_of("仓库")),
            };
            let url = strip_trail_v(&v, '/');
            let mut i: usize = 0;
            while i < registry_urls.len()
                invariant
                    i <= registry_urls.len(),
                    field == InputField::RegistryUrl,
                    pending.registry_name is None,
                    pending.mirror_name == old(pending).mirror_name,
                    pending.mirror_tool == old(pending).mirror_tool,
                    v@ == value@,
                    value@.len() > 0 && http_prefixed(value@),
                    url@ == strip_trail(value@, '/'),
                    forall|j: int| 0 <= j < i ==> registry_urls@[j]@ != url@,
                decreases registry_urls.len() - i,
            {
                if eq(&chars_of_string(&registry_urls[i]), &url) {
                    return Err(config_error("该仓库地址已存在"));
                }
                i = i + 1;
            }
            Ok(CommitAction::AddRegistry { name, url: to_string(&url) })
        },
        InputField::MirrorName => {
            if v.len() == 0 {
                return Err(config_error("镜像名称不能为空"));
            }
            pending.mirror_name = Some(value);
            let mut p: Vec<char> = Vec::new();
            append_str(&mut p, "为 ");
            match &pending.mirror_tool {
                Some(t) => append_str(&mut p, t.as_str()),
                None => {},
            }
            append_str(&mut p, " 添加自定义镜像源：地址");
            Ok(
                CommitAction::NextInput {
                    field: InputField::MirrorUrl,
                    prompt: to_string(&p),
                    status: to_string(&chars_of("继续输入镜像地址…")),
                },
            )
        },
        InputField::MirrorUrl => {
            let tool = match &pending.mirror_tool {
                Some(t) => t.clone(),
                None => String::new(),
            };
            let name = match pending.mirror_name.take() {
                Some(n) => n,
                None => String::new(),
            };
            if v.len() == 0 || !is_http(&v) {
                return Err(config_error("镜像地址需以 http:// 或 https:// 开头"));
            }
            Ok(CommitAction::AddMirror { tool, name, url: value })
        },
    }
}

// ---------------------------------------------------------------------------
// Confirmation box
// ---------------------------------------------------------------------------

/// What a key does in the confirmation box.
#[derive(Debug, Clone, Copy, PartialEq, Eq, Structural)]
pub enum ConfirmOutcome {
    Execute,
    Dismiss,
    Ignore,
}

pub fn confirm_key(k: Key) -> (r: ConfirmOutcome)
    ensures
        r == (if k == Key::Char('y') || k == Key::Char('Y') {
            ConfirmOutcome::Execute
        } else if k == Key::Char('n') || k == Key::Char('N') || k == Key::Esc {
            ConfirmOutcome::Dismiss
        } else {
            ConfirmOutcome::Ignore
        }),
{
    match k {
        Key::Char(c) => {
            if c == 'y' || c == 'Y' {
                ConfirmOutcome::Execute
            } else if c == 'n' || c == 'N' {
                ConfirmOutcome::Dismiss
            } else {
                ConfirmOutcome::Ignore
            }
        },
        Key::Esc => ConfirmOutcome::Dismiss,
        _ => ConfirmOutcome::Ignore,
    }
}

/// Removes the configured repository `idx` after confirmation; the last one
/// stays. Returns whether the list changed (and is to be saved).
pub fn remove_registry_entry<T>(entries: &mut Vec<T>, idx: usize) -> (r: Result<bool, EnvHiveError>)
    ensures
        old(entries)@.len() <= 1 ==> (r matches Err(e) && e.kind == EnvHiveErrorKind::Config
            && e.message@ == "至少保留一个插件仓库"@ && final(entries)@ == old(entries)@),
        old(entries)@.len() > 1 ==> if idx < old(entries)@.len() {
            r == Ok::<bool, EnvHiveError>(true) && final(entries)@ == old(entries)@.remove(idx as int)
        } else {
            r == Ok::<bool, EnvHiveError>(false) && final(entries)@ == old(entries)@
        },
{
    if entries.len() <= 1 {
        return Err(config_error("至少保留一个插件仓库"));
    }
    if idx < entries.len() {
        entries.remove(idx);
        Ok(true)
    } else {
        Ok(false)
    }
}

/// The selected row after a deletion: kept inside the rows left.
pub fn clamp_selection(idx: usize, rows: usize) -> (r: usize)
    ensures
        r == (if idx >= rows {
            if rows > 0 {
                (rows - 1) as usize
            } else {
                0
            }
        } else {
            idx
        }),
{
    if idx >= rows {
        rows.saturating_sub(1)
    } else {
        idx
    }
}

} // verus!
