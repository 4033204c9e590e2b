//! The texts of the rows of the terminal UI's lists: which marks a row
//! carries (current, installed, updatable, …) and how its columns are
//! padded. Colours and the drawing stay with the caller.

use vstd::prelude::*;

use crate::plugin::PluginInfo;
use crate::settings::RegistryEntry;
use crate::term::{on_off, on_off_text, padded, pad_cells, truncate_cells, truncated};
use crate::tui_tabs::SettingRowKind;
use crate::text::{append, append_str, chars_of, chars_of_string, decimal, dec_digits, eq, to_string};
use crate::version::str_views;

verus! {

/// `format!("{:<w}", s)`: spaces added on the right up to `w` characters.
pub open spec fn pad_chars(s: Seq<char>, w: nat) -> Seq<char> {
    if s.len() >= w {
        s
    } else {
        s + Seq::new((w - s.len()) as nat, |i: int| ' ')
    }
}

fn pad_chars_v(s: &Vec<char>, w: usize) -> (r: Vec<char>)
    ensures
        r@ == pad_chars(s@, w as nat),
{
    let mut out: Vec<char> = Vec::new();
    append(&mut out, s);
    if s.len() >= w {
        return out;
    }
    let n = w - s.len();
    let mut k: usize = 0;
    while k < n
        invariant
            k <= n,
            out@ == s@ + Seq::new(k as nat, |i: int| ' '),
        decreases n - k,
    {
        out.push(' ');
        assert(out@ =~= s@ + Seq::new((k + 1) as nat, |i: int| ' '));
        k = k + 1;
    }
    out
}

/// `s` padded to `w` characters, as a string.
pub fn pad_right(s: &String, w: usize) -> (r: String)
    ensures
        r@ == pad_chars(s@, w as nat),
{
    to_string(&pad_chars_v(&chars_of_string(s), w))
}

pub open spec fn or_text(o: Option<&String>, default: Seq<char>) -> Seq<char> {
    match o {
        Some(s) => s@,
        None => default,
    }
}

fn or_text_v(o: Option<&String>, default: &str) -> (r: String)
    ensures
        r@ == or_text(o, default@),
{
    match o {
        Some(s) => s.clone(),
        None => to_string(&chars_of(default)),
    }
}

// ---------------------------------------------------------------------------
// Tools tab
// ---------------------------------------------------------------------------

/// A tool in the tool list: its name in ten columns and its current
/// version (`—` when none).
pub fn tool_row(name: &String, current: Option<&String>) -> (r: (String, String))
    ensures
        r.0@ == pad_chars(name@, 10),
        r.1@ == or_text(current, "—"@),
{
    (pad_right(name, 10), or_text_v(current, "—"))
}

/// What a version of the selected tool is to it.
#[derive(Debug, Clone, Copy, PartialEq, Eq, Structural)]
pub enum VersionMark {
    /// The global default.
    Global,
    Installed,
    /// Not installed: Enter installs it.
    Install,
}

pub open spec fn mark_of(current: Option<&String>, installed: Seq<Seq<char>>, v: Seq<char>) -> VersionMark {
    if current matches Some(c) && c@ == v {
        VersionMark::Global
    } else if installed.contains(v) {
        VersionMark::Installed
    } else {
        VersionMark::Install
    }
}

pub fn version_mark(current: Option<&String>, installed: &Vec<String>, v: &String) -> (r: VersionMark)
    ensures
        r == mark_of(current, str_views(installed@), v@),
{
    if let Some(c) = current {
        if eq(&chars_of_string(c), &chars_of_string(v)) {
            return VersionMark::Global;
        }
    }
    let vc = chars_of_string(v);
    let mut i: usize = 0;
    while i < installed.len()
        invariant
            i <= installed.len(),
            vc@ == v@,
            !(current matches Some(c) && c@ == v@),
            forall|j: int| 0 <= j < i ==> installed@[j]@ != v@,
        decreases installed.len() - i,
    {
        if eq(&chars_of_string(&installed[i]), &vc) {
            assert(str_views(installed@)[i as int] == v@);
            return VersionMark::Installed;
        }
        i = i + 1;
    }
    assert(!str_views(installed@).contains(v@)) by {
        if str_views(installed@).contains(v@) {
            let j = choose|j: int| 0 <= j < installed@.len() && str_views(installed@)[j] == v@;
            assert(installed@[j]@ == v@);
        }
    }
    VersionMark::Install
}

pub open spec fn mark_text(m: VersionMark) -> Seq<char> {
    match m {
        VersionMark::Global => " [全局]"@,
        VersionMark::Installed => " [已装]"@,
        VersionMark::Install => " [安装]"@,
    }
}

/// A version in the version list: the version in fourteen columns and its mark.
pub fn version_row(v: &String, mark: VersionMark) -> (r: (String, String))
    ensures
        r.0@ == pad_chars(v@, 14),
        r.1@ == mark_text(mark),
{
    let t = match mark {
        VersionMark::Global => " [全局]",
        VersionMark::Installed => " [已装]",
        VersionMark::Install => " [安装]",
    };
    (pad_right(v, 14), to_string(&chars_of(t)))
}

// ---------------------------------------------------------------------------
// Plugins tab
// ---------------------------------------------------------------------------

/// A local plugin: name (12 columns), display name (14 columns), whether it
/// is on, and where it came from.
pub fn local_plugin_row(p: &PluginInfo) -> (r: (String, String, String, String))
    ensures
        r.0@ == pad_chars(p.name@, 12),
        r.1@ == pad_chars(p.display@, 14),
        r.2@ == (if p.enabled {
            "启用"@
        } else {
            "禁用"@
        }),
        r.3@ == "  "@ + p.source@,
{
    let tag = if p.enabled {
        to_string(&chars_of("启用"))
    } else {
        to_string(&chars_of("禁用"))
    };
    let mut src = chars_of("  ");
    append(&mut src, &chars_of_string(&p.source));
    (pad_right(&p.name, 12), pad_right(&p.display, 14), tag, to_string(&src))
}

/// A plugin of the market compared with the local plugins.
#[derive(Debug, Clone, Copy, PartialEq, Eq, Structural)]
pub enum MarketState {
    /// Installed in the same version.
    Installed,
    /// Installed in another version (or one that declares none).
    Updatable,
    NotInstalled,
}

pub open spec fn market_state_of(local: Option<Option<&String>>, remote_version: Seq<char>) -> MarketState {
    match local {
        Some(Some(v)) if v@ == remote_version => MarketState::Installed,
        Some(_) => MarketState::Updatable,
        None => MarketState::NotInstalled,
    }
}

/// The state of a market plugin: `local` is the version of the local
/// plugin of that name (itself absent when the plugin declares none), or
/// none when there is no such local plugin.
pub fn market_state(local: Option<Option<&String>>, remote_version: &String) -> (r: MarketState)
    ensures
        r == market_state_of(local, remote_version@),
{
    match local {
        Some(Some(v)) => if eq(&chars_of_string(v), &chars_of_string(remote_version)) {
            MarketState::Installed
        } else {
            MarketState::Updatable
        },
        Some(None) => MarketState::Updatable,
        None => MarketState::NotInstalled,
    }
}

/// The local plugin of a name among the local plugins, if there is one.
pub fn local_version_of<'a>(plugins: &'a Vec<PluginInfo>, name: &String) -> (r: Option<Option<&'a String>>)
    ensures
        match r {
            Some(v) => exists|i: int|
                0 <= i < plugins@.len() && plugins@[i].name@ == name@ && (forall|j: int|
                    0 <= j < i ==> plugins@[j].name@ != name@) && v == match plugins@[i].version {
                    Some(s) => Some(&s),
                    None => None::<&String>,
                },
            None => forall|i: int| 0 <= i < plugins@.len() ==> plugins@[i].name@ != name@,
        },
{
    let nc = chars_of_string(name);
    let mut i: usize = 0;
    while i < plugins.len()
        invariant
            i <= plugins.len(),
            nc@ == name@,
            forall|j: int| 0 <= j < i ==> plugins@[j].name@ != name@,
        decreases plugins.len() - i,
    {
        if eq(&chars_of_string(&plugins[i].name), &nc) {
            let v = match &plugins[i].version {
                Some(s) => Some(s),
                None => None,
            };
            return Some(v);
        }
        i = i + 1;
    }
    None
}

pub open spec fn market_text(s: MarketState) -> Seq<char> {
    match s {
        MarketState::Installed => "已安装"@,
        MarketState::Updatable => "可更新"@,
        MarketState::NotInstalled => "未安装"@,
    }
}

/// A market plugin: name (12 columns), `v` and version (10 columns), its
/// state (6 columns) and description.
pub fn market_row(name: &String, version: &String, state: MarketState, description: &String) -> (r: (
    String,
    String,
    String,
    String,
))
    ensures
        r.0@ == pad_chars(name@, 12),
        r.1@ == "v"@ + pad_chars(version@, 10),
        r.2@ == pad_chars(market_text(state), 6),
        r.3@ == description@,
{
    let mut v = chars_of("v");
    append(&mut v, &pad_chars_v(&chars_of_string(version), 10));
    let t = match state {
        MarketState::Installed => chars_of("已安装"),
        MarketState::Updatable => chars_of("可更新"),
        MarketState::NotInstalled => chars_of("未安装"),
    };
    (pad_right(name, 12), to_string(&v), to_string(&pad_chars_v(&t, 6)), description.clone())
}

/// The title of the market list.
pub fn market_title(count: usize) -> (r: String)
    ensures
        r@ == (if count == 0 {
            "插件市场（r 拉取）"@
        } else {
            "插件市场 · "@ + dec_digits(count as nat) + " 个（Enter 安装 / r 刷新）"@
        }),
{
    if count == 0 {
        return to_string(&chars_of("插件市场（r 拉取）"));
    }
    let mut t = chars_of("插件市场 · ");
    append(&mut t, &decimal(count as u64));
    append_str(&mut t, " 个（Enter 安装 / r 刷新）");
    to_string(&t)
}

// ---------------------------------------------------------------------------
// Queue tab
// ---------------------------------------------------------------------------

/// The state of a task of the install queue.
#[derive(Debug, Clone, Copy, PartialEq, Eq, Structural)]
pub enum TaskState {
    Queued,
    Running,
    Done,
    Failed,
    Cancelled,
}

pub open spec fn task_text(s: TaskState) -> Seq<char> {
    match s {
        TaskState::Queued => "排队"@,
        TaskState::Running => "下载"@,
        TaskState::Done => "完成"@,
        TaskState::Failed => "失败"@,
        TaskState::Cancelled => "取消"@,
    }
}

/// The word shown for a task's state, in five columns.
pub fn task_tag(s: TaskState) -> (r: String)
    ensures
        r@ == pad_chars(task_text(s), 5),
{
    let t = match s {
        TaskState::Queued => chars_of("排队"),
        TaskState::Running => chars_of("下载"),
        TaskState::Done => chars_of("完成"),
        TaskState::Failed => chars_of("失败"),
        TaskState::Cancelled => chars_of("取消"),
    };
    to_string(&pad_chars_v(&t, 5))
}

/// The task whose progress the queue tab shows: the first running one,
/// else the first that is not done; none when every task is done.
pub fn progress_task(states: &[TaskState]) -> (r: Option<usize>)
    ensures
        match r {
            Some(i) => i < states@.len() && ((states@[i as int] == TaskState::Running && forall|j: int|
                0 <= j < i ==> states@[j] != TaskState::Running) || ((forall|j: int|
                0 <= j < states@.len() ==> states@[j] != TaskState::Running) && states@[i as int]
                != TaskState::Done && forall|j: int| 0 <= j < i ==> states@[j] == TaskState::Done)),
            None => forall|j: int| 0 <= j < states@.len() ==> states@[j] == TaskState::Done,
        },
{
    let mut i: usize = 0;
    while i < states.len()
        invariant
            i <= states.len(),
            forall|j: int| 0 <= j < i ==> states@[j] != TaskState::Running,
        decreases states.len() - i,
    {
        if states[i] == TaskState::Running {
            return Some(i);
        }
        i = i + 1;
    }
    let mut k: usize = 0;
    while k < states.len()
        invariant
            k <= states.len(),
            forall|j: int| 0 <= j < states@.len() ==> states@[j] != TaskState::Running,
            forall|j: int| 0 <= j < k ==> states@[j] == TaskState::Done,
        decreases states.len() - k,
    {
        if states[k] != TaskState::Done {
            return Some(k);
        }
        k = k + 1;
    }
    None
}

// ---------------------------------------------------------------------------
// Statistics tab
// ---------------------------------------------------------------------------

/// `n` in four columns followed by 次.
pub open spec fn times_text(n: u32) -> Seq<char> {
    pad_chars(dec_digits(n as nat), 4) + "次"@
}

fn times_v(n: u32) -> (r: Vec<char>)
    ensures
        r@ == times_text(n),
{
    let mut t = pad_chars_v(&decimal(n as u64), 4);
    append_str(&mut t, "次");
    t
}

/// A tool of the statistics: its name (10 columns) and its uses.
pub fn stats_tool_row(tool: &String, total_count: u32) -> (r: (String, String))
    ensures
        r.0@ == pad_chars(tool@, 10),
        r.1@ == times_text(total_count),
{
    (pad_right(tool, 10), to_string(&times_v(total_count)))
}

/// How long ago a version was last used.
pub open spec fn used_text(days: Option<i64>) -> Seq<char> {
    match days {
        Some(d) => (if d < 0 {
            "-"@ + dec_digits((-d) as nat)
        } else {
            dec_digits(d as nat)
        }) + " 天前"@,
        None => "从未"@,
    }
}

pub open spec fn stats_mark(is_current: bool, installed: bool) -> Option<Seq<char>> {
    if is_current {
        Some(" 全局"@)
    } else if installed {
        Some(" 已装"@)
    } else {
        None
    }
}

/// A version of the statistics: the version (14 columns), its uses, when
/// it was last used, and whether it is the global default or installed.
pub fn stats_version_row(
    version: &String,
    count: u32,
    last_used_days_ago: Option<i64>,
    is_current: bool,
    installed: bool,
) -> (r: (String, String, String, Option<String>))
    ensures
        r.0@ == pad_chars(version@, 14),
        r.1@ == times_text(count),
        r.2@ == used_text(last_used_days_ago),
        match r.3 {
            Some(m) => stats_mark(is_current, installed) == Some(m@),
            None => stats_mark(is_current, installed) is None,
        },
{
    let used = match last_used_days_ago {
        Some(d) => {
            let mut t: Vec<char> = Vec::new();
            if d < 0 {
                t.push('-');
                let u: u64 = if d == i64::MIN {
                    9223372036854775808u64
                } else {
                    (-d) as u64
                };
                append(&mut t, &decimal(u));
                assert(t@ =~= "-"@ + dec_digits((-d) as nat)) by {
                    reveal_strlit("-");
                }
            } else {
                append(&mut t, &decimal(d as u64));
            }
            append_str(&mut t, " 天前");
            to_string(&t)
        },
        None => to_string(&chars_of("从未")),
    };
    let mark = if is_current {
        Some(to_string(&chars_of(" 全局")))
    } else if installed {
        Some(to_string(&chars_of(" 已装")))
    } else {
        None
    };
    (pad_right(version, 14), to_string(&times_v(count)), used, mark)
}

// ---------------------------------------------------------------------------
// Mirrors tab
// ---------------------------------------------------------------------------

/// A tool with download mirrors: its name (12 columns) and the mirror in
/// use (the official source when none).
pub fn sdk_tool_row(name: &String, mirror: Option<&String>) -> (r: (String, String))
    ensures
        r.0@ == pad_chars(name@, 12),
        r.1@ == or_text(mirror, "官方源"@),
{
    (pad_right(name, 12), or_text_v(mirror, "官方源"))
}

/// A download-mirror choice (14 columns) marked when it is the one in use;
/// the official source is in use when no mirror is selected.
pub fn mirror_option_row(option: &String, selected: Option<&String>) -> (r: (String, String))
    ensures
        r.0@ == pad_chars(option@, 14),
        r.1@ == (if (option@ == "官方源"@ && selected is None) || (option@ != "官方源"@
            && (selected matches Some(s) && s@ == option@)) {
            " ● 当前"@
        } else {
            ""@
        }),
{
    let oc = chars_of_string(option);
    let official = chars_of("官方源");
    let cur = if eq(&oc, &official) {
        selected.is_none()
    } else {
        match selected {
            Some(s) => eq(&chars_of_string(s), &oc),
            None => false,
        }
    };
    let mark = if cur {
        to_string(&chars_of(" ● 当前"))
    } else {
        proof {
            reveal_strlit("");
        }
        to_string(&chars_of(""))
    };
    (pad_right(option, 14), mark)
}

/// A tool whose package registry can be switched: its name (8 columns)
/// and the preset in use (未配置 when none).
pub fn registry_tool_row(tool: &String, preset: Option<&String>) -> (r: (String, String))
    ensures
        r.0@ == pad_chars(tool@, 8),
        r.1@ == or_text(preset, "未配置"@),
{
    (pad_right(tool, 8), or_text_v(preset, "未配置"))
}

/// A registry preset: its name cut and padded to 20 cells, the current mark
/// padded to 8 cells, a space, its URL, and 自定义 for a custom one.
pub fn preset_row(name: &String, url: &String, is_current: bool, is_custom: bool) -> (r: Vec<String>)
    requires
        name@.len() <= usize::MAX / 4,
    ensures
        r@.len() == (if is_custom {
            5int
        } else {
            4int
        }),
        r@[0]@ == padded(truncated(name@, 20), 20),
        r@[1]@ == padded(
            if is_current {
                "（当前）"@
            } else {
                ""@
            },
            8,
        ),
        r@[2]@ == " "@,
        r@[3]@ == url@,
        is_custom ==> r@[4]@ == "（自定义）"@,
{
    let cut = truncate_cells(name.as_str(), 20);
    proof {
        crate::term::lemma_truncated_len(name@, 20);
    }
    let n = pad_cells(cut.as_str(), 20);
    let cur = if is_current {
        proof {
            reveal_strlit("（当前）");
        }
        pad_cells("（当前）", 8)
    } else {
        proof {
            reveal_strlit("");
        }
        pad_cells("", 8)
    };
    let mut r: Vec<String> = Vec::new();
    r.push(n);
    r.push(cur);
    r.push(to_string(&chars_of(" ")));
    r.push(url.clone());
    if is_custom {
        r.push(to_string(&chars_of("（自定义）")));
    }
    r
}

// ---------------------------------------------------------------------------
// Settings tab
// ---------------------------------------------------------------------------

pub open spec fn setting_label(k: SettingRowKind) -> Seq<char> {
    match k {
        SettingRowKind::ProxyEnable => "下载代理"@,
        SettingRowKind::ProxyUrl => "代理地址"@,
        SettingRowKind::CacheTtl => "缓存有效期"@,
        SettingRowKind::StoragePath => "工具存储路径"@,
        SettingRowKind::RegistryEntry(_) => "插件仓库"@,
    }
}

pub open spec fn setting_value(
    k: SettingRowKind,
    proxy_enabled: bool,
    proxy_url: Option<&String>,
    cache_ttl: Seq<char>,
    storage_path: Seq<char>,
    entry: Option<&RegistryEntry>,
) -> Seq<char> {
    match k {
        SettingRowKind::ProxyEnable => on_off_text(proxy_enabled),
        SettingRowKind::ProxyUrl => or_text(proxy_url, "（未设置）"@),
        SettingRowKind::CacheTtl => cache_ttl,
        SettingRowKind::StoragePath => storage_path,
        SettingRowKind::RegistryEntry(_) => match entry {
            Some(e) => e.name@ + "  "@ + e.url@,
            None => ""@,
        },
    }
}

/// A settings row: its label (18 columns), two spaces for a repository row,
/// and its value. `entry` is the repository that a repository row shows.
pub fn setting_row(
    k: SettingRowKind,
    proxy_enabled: bool,
    proxy_url: Option<&String>,
    cache_ttl: &String,
    storage_path: &String,
    entry: Option<&RegistryEntry>,
) -> (r: Vec<String>)
    ensures
        r@.len() == (if k is RegistryEntry {
            3int
        } else {
            2int
        }),
        r@[0]@ == pad_chars(setting_label(k), 18),
        k is RegistryEntry ==> r@[1]@ == "  "@,
        r@[r@.len() - 1]@ == setting_value(k, proxy_enabled, proxy_url, cache_ttl@, storage_path@, entry),
{
    let label = match k {
        SettingRowKind::ProxyEnable => chars_of("下载代理"),
        SettingRowKind::ProxyUrl => chars_of("代理地址"),
        SettingRowKind::CacheTtl => chars_of("缓存有效期"),
        SettingRowKind::StoragePath => chars_of("工具存储路径"),
        SettingRowKind::RegistryEntry(_) => chars_of("插件仓库"),
    };
    let value = match k {
        SettingRowKind::ProxyEnable => on_off(proxy_enabled),
        SettingRowKind::ProxyUrl => or_text_v(proxy_url, "（未设置）"),
        SettingRowKind::CacheTtl => cache_ttl.clone(),
        SettingRowKind::StoragePath => storage_path.clone(),
        SettingRowKind::RegistryEntry(_) => match entry {
            Some(e) => {
                let mut t = chars_of_string(&e.name);
                append_str(&mut t, "  ");
                append(&mut t, &chars_of_string(&e.url));
                to_string(&t)
            },
            None => {
                proof {
                    reveal_strlit("");
                }
                to_string(&chars_of(""))
            },
        },
    };
    let mut r: Vec<String> = Vec::new();
    r.push(to_string(&pad_chars_v(&label, 18)));
    if let SettingRowKind::RegistryEntry(_) = k {
        r.push(to_string(&chars_of("  ")));
    }
    r.push(value);
    r
}

} // verus!
