//! Decisions of the terminal UI's tabs: the version list shown for a tool,
//! its distribution, the rows of the settings tab, the download-mirror
//! choices of a tool, and the prompts and status texts of the actions.

use vstd::prelude::*;

use crate::mirror::active_mirror;
use crate::strmap::{lookup, StrMap};
use crate::text::{append, append_str, chars_of, chars_of_string, decimal, dec_digits, eq, to_string};
use crate::tool::{DistributionInfo, MirrorCandidate, ToolInfo};
use crate::tui_input::InputField;
use crate::version::str_views;

verus! {

/// Whether two strings are equal.
pub fn same_text(a: &String, b: &String) -> (r: bool)
    ensures
        r == (a@ == b@),
{
    let x = chars_of_string(a);
    let y = chars_of_string(b);
    eq(&x, &y)
}

/// Whether `s` is among `v`.
pub fn contains_text(v: &Vec<String>, s: &String) -> (r: bool)
    ensures
        r == str_views(v@).contains(s@),
{
    let mut i: usize = 0;
    while i < v.len()
        invariant
            i <= v.len(),
            forall|j: int| 0 <= j < i ==> v@[j]@ != s@,
        decreases v.len() - i,
    {
        if same_text(&v[i], s) {
            assert(str_views(v@)[i as int] == s@);
            return true;
        }
        i = i + 1;
    }
    assert forall|j: int| 0 <= j < str_views(v@).len() implies str_views(v@)[j] != s@ by {
        assert(str_views(v@)[j] == v@[j]@);
    }
    false
}

/// `base` followed by the items of `extra` it does not hold yet, in order,
/// each taken once.
pub open spec fn merged_new(base: Seq<Seq<char>>, extra: Seq<Seq<char>>) -> Seq<Seq<char>>
    decreases extra.len(),
{
    if extra.len() == 0 {
        base
    } else {
        let m = merged_new(base, extra.drop_last());
        if m.contains(extra.last()) {
            m
        } else {
            m.push(extra.last())
        }
    }
}

/// Appends to `out` each item of `extra` that `out` does not hold yet.
fn push_new(out: &mut Vec<String>, extra: &Vec<String>)
    ensures
        str_views(final(out)@) == merged_new(str_views(old(out)@), str_views(extra@)),
{
    let ghost base = str_views(out@);
    let mut i: usize = 0;
    while i < extra.len()
        invariant
            i <= extra.len(),
            str_views(out@) == merged_new(base, str_views(extra@).take(i as int)),
        decreases extra.len() - i,
    {
        let ghost ex = str_views(extra@);
        assert(ex.take(i + 1).drop_last() =~= ex.take(i as int));
        assert(ex.take(i + 1).last() == extra@[i as int]@);
        if !contains_text(out, &extra[i]) {
            let ghost before = str_views(out@);
            out.push(extra[i].clone());
            assert(str_views(out@) =~= before.push(extra@[i as int]@));
        }
        i = i + 1;
    }
    assert(str_views(extra@).take(extra.len() as int) =~= str_views(extra@));
}

pub open spec fn opt_views(o: Option<Vec<String>>) -> Seq<Seq<char>> {
    match o {
        Some(v) => str_views(v@),
        None => Seq::empty(),
    }
}

/// The versions first listed for a tool: the installed ones, then the
/// cached available ones not installed.
pub fn versions_for(tool: Option<&ToolInfo>) -> (r: Vec<String>)
    ensures
        str_views(r@) == match tool {
            Some(t) => merged_new(str_views(t.installed@), opt_views(t.available)),
            None => Seq::<Seq<char>>::empty(),
        },
{
    match tool {
        None => {
            let v: Vec<String> = Vec::new();
            assert(str_views(v@) =~= Seq::<Seq<char>>::empty());
            v
        },
        Some(t) => {
            let mut out: Vec<String> = Vec::new();
            let mut i: usize = 0;
            while i < t.installed.len()
                invariant
                    i <= t.installed.len(),
                    str_views(out@) == str_views(t.installed@).take(i as int),
                decreases t.installed.len() - i,
            {
                let ghost before = str_views(out@);
                out.push(t.installed[i].clone());
                assert(str_views(out@) =~= before.push(t.installed@[i as int]@));
                assert(str_views(t.installed@).take(i + 1) =~= str_views(t.installed@).take(
                    i as int,
                ).push(t.installed@[i as int]@));
                i = i + 1;
            }
            assert(str_views(t.installed@).take(t.installed.len() as int) =~= str_views(
                t.installed@,
            ));
            match &t.available {
                Some(avail) => {
                    push_new(&mut out, avail);
                },
                None => {
                    assert(merged_new(str_views(out@), Seq::<Seq<char>>::empty()) == str_views(out@));
                },
            }
            out
        },
    }
}

/// The index of the first distribution with key `d`.
pub open spec fn first_key(ds: Seq<DistributionInfo>, d: Seq<char>, k: int) -> bool {
    &&& 0 <= k < ds.len()
    &&& ds[k].key@ == d
    &&& forall|j: int| 0 <= j < k ==> ds[j].key@ != d
}

/// The distribution selected when a tool is selected: the tool's default
/// distribution when it declares it, else the first; 0 for a tool without
/// distributions.
pub fn distribution_index(dists: Option<&Vec<DistributionInfo>>, default: Option<&String>) -> (r:
    usize)
    ensures
        dists is None || default is None ==> r == 0,
        dists is Some && default is Some ==> {
            let ds = dists.unwrap()@;
            let d = default.unwrap()@;
            if exists|k: int| 0 <= k < ds.len() && #[trigger] ds[k].key@ == d {
                first_key(ds, d, r as int)
            } else {
                r == 0
            }
        },
{
    match (dists, default) {
        (Some(ds), Some(d)) => {
            let mut i: usize = 0;
            while i < ds.len()
                invariant
                    i <= ds.len(),
                    dists == Some(ds),
                    default == Some(d),
                    forall|j: int| 0 <= j < i ==> ds@[j].key@ != d@,
                decreases ds.len() - i,
            {
                if same_text(&ds[i].key, d) {
                    assert(dists.unwrap()@ == ds@ && default.unwrap()@ == d@);
                    assert(first_key(ds@, d@, i as int));
                    return i;
                }
                i = i + 1;
            }
            0
        },
        _ => 0,
    }
}

pub open spec fn no_distributions_status() -> Seq<char> {
    "当前工具无发行商维度（如 Node.js 仅有单一官方源）"@
}

pub open spec fn switched_distribution_status(display: Seq<char>) -> Seq<char> {
    "已切换发行商："@ + display + " （Enter 拉取版本 / 安装将使用该发行商）"@
}

/// The `d` key on the tools tab: the next distribution (after the last one
/// the first), with its status text; a tool without distributions keeps
/// its state and gets a status text that says so. The caller then fetches
/// the versions of the new distribution from their first row.
pub fn cycle_distribution(dist_idx: usize, dists: Option<&Vec<DistributionInfo>>) -> (r: Result<
    (usize, String),
    String,
>)
    ensures
        match dists {
            Some(ds) if ds.len() > 0 => match r {
                Ok((n, status)) => {
                    &&& n == (dist_idx + 1) % (ds.len() as int)
                    &&& status@ == switched_distribution_status(ds@[n as int].display@)
                },
                Err(_) => false,
            },
            _ => match r {
                Err(status) => status@ == no_distributions_status(),
                Ok(_) => false,
            },
        },
{
    match dists {
        Some(ds) => {
            if ds.len() == 0 {
                return Err(to_string(&chars_of("当前工具无发行商维度（如 Node.js 仅有单一官方源）")));
            }
            let len = ds.len();
            let n = (dist_idx % len + 1) % len;
            proof {
                let q = dist_idx as int / len as int;
                let m = dist_idx as int % len as int;
                vstd::arithmetic::div_mod::lemma_fundamental_div_mod(dist_idx as int, len as int);
                vstd::arithmetic::div_mod::lemma_mod_add_multiples_vanish(m + 1, len as int);
                assert(dist_idx + 1 == (m + 1) + q * len) by (nonlinear_arith)
                    requires
                        dist_idx as int == len * q + m,
                ;
                vstd::arithmetic::div_mod::lemma_mod_multiples_vanish(q, m + 1, len as int);
            }
            let mut t = chars_of("已切换发行商：");
            append(&mut t, &chars_of_string(&ds[n].display));
            append_str(&mut t, " （Enter 拉取版本 / 安装将使用该发行商）");
            Ok((n, to_string(&t)))
        },
        None => Err(to_string(&chars_of("当前工具无发行商维度（如 Node.js 仅有单一官方源）"))),
    }
}

// ---------------------------------------------------------------------------
// Settings tab
// ---------------------------------------------------------------------------

/// The rows of the settings tab: four fixed rows, then the plugin
/// registries.
#[derive(Debug, Clone, Copy, PartialEq, Eq, Structural)]
pub enum SettingRowKind {
    ProxyEnable,
    ProxyUrl,
    CacheTtl,
    StoragePath,
    RegistryEntry(usize),
}

pub open spec fn row_kind(idx: usize) -> SettingRowKind {
    if idx == 0 {
        SettingRowKind::ProxyEnable
    } else if idx == 1 {
        SettingRowKind::ProxyUrl
    } else if idx == 2 {
        SettingRowKind::CacheTtl
    } else if idx == 3 {
        SettingRowKind::StoragePath
    } else {
        SettingRowKind::RegistryEntry((idx - 4) as usize)
    }
}

/// What row `idx` of the settings tab shows.
pub fn setting_row_kind(idx: usize) -> (r: SettingRowKind)
    ensures
        r == row_kind(idx),
{
    if idx == 0 {
        SettingRowKind::ProxyEnable
    } else if idx == 1 {
        SettingRowKind::ProxyUrl
    } else if idx == 2 {
        SettingRowKind::CacheTtl
    } else if idx == 3 {
        SettingRowKind::StoragePath
    } else {
        SettingRowKind::RegistryEntry(idx - 4)
    }
}

/// The registry whose row is selected, if a registry row is.
pub fn selected_registry_entry(settings_idx: usize) -> (r: Option<usize>)
    ensures
        r == (if settings_idx >= 4 {
            Some((settings_idx - 4) as usize)
        } else {
            None::<usize>
        }),
{
    match setting_row_kind(settings_idx) {
        SettingRowKind::RegistryEntry(i) => Some(i),
        _ => None,
    }
}

/// What Enter or `e` on a settings row does.
pub enum SettingAction {
    /// Switch the download proxy on or off.
    ToggleProxy,
    /// Open the input box for `field` with `prompt`, holding the current value.
    Input { field: InputField, prompt: String },
    /// Only show a status text.
    Status(String),
    Nothing,
}

pub open spec fn input_prompt(field: InputField) -> Seq<char> {
    match field {
        InputField::ProxyUrl => "代理地址（如 http://127.0.0.1:7890）"@,
        InputField::CacheTtl => "缓存有效期（12h / 3600 / -1 / 0）"@,
        _ => "工具存储路径（修改需重启生效）"@,
    }
}

pub open spec fn input_action(a: SettingAction, field: InputField) -> bool {
    a matches SettingAction::Input { field: f, prompt } && f == field && prompt@ == input_prompt(
        field,
    )
}

fn edit_input(field: InputField) -> (r: SettingAction)
    requires
        field == InputField::ProxyUrl || field == InputField::CacheTtl || field
            == InputField::StoragePath,
    ensures
        input_action(r, field),
{
    let prompt = match field {
        InputField::ProxyUrl => to_string(&chars_of("代理地址（如 http://127.0.0.1:7890）")),
        InputField::CacheTtl => to_string(&chars_of("缓存有效期（12h / 3600 / -1 / 0）")),
        _ => to_string(&chars_of("工具存储路径（修改需重启生效）")),
    };
    SettingAction::Input { field, prompt }
}

/// Enter on a settings row: the switch row toggles the proxy, the three
/// value rows open the input box; registry rows do nothing.
pub fn activate_setting(kind: SettingRowKind) -> (r: SettingAction)
    ensures
        kind == SettingRowKind::ProxyEnable ==> r is ToggleProxy,
        kind == SettingRowKind::ProxyUrl ==> input_action(r, InputField::ProxyUrl),
        kind == SettingRowKind::CacheTtl ==> input_action(r, InputField::CacheTtl),
        kind == SettingRowKind::StoragePath ==> input_action(r, InputField::StoragePath),
        kind is RegistryEntry ==> r is Nothing,
{
    match kind {
        SettingRowKind::ProxyEnable => SettingAction::ToggleProxy,
        SettingRowKind::ProxyUrl => edit_input(InputField::ProxyUrl),
        SettingRowKind::CacheTtl => edit_input(InputField::CacheTtl),
        SettingRowKind::StoragePath => edit_input(InputField::StoragePath),
        SettingRowKind::RegistryEntry(_) => SettingAction::Nothing,
    }
}

/// The `e` key on a settings row: the value rows open the input box, the
/// other rows tell that they are not edited this way.
pub fn edit_setting(kind: SettingRowKind) -> (r: SettingAction)
    ensures
        kind == SettingRowKind::ProxyUrl ==> input_action(r, InputField::ProxyUrl),
        kind == SettingRowKind::CacheTtl ==> input_action(r, InputField::CacheTtl),
        kind == SettingRowKind::StoragePath ==> input_action(r, InputField::StoragePath),
        (kind == SettingRowKind::ProxyEnable || kind is RegistryEntry) ==> (r matches SettingAction::Status(t)
            && t@ == "该行不可编辑（开关用空格，仓库行用 a/d）"@),
{
    match kind {
        SettingRowKind::ProxyUrl => edit_input(InputField::ProxyUrl),
        SettingRowKind::CacheTtl => edit_input(InputField::CacheTtl),
        SettingRowKind::StoragePath => edit_input(InputField::StoragePath),
        _ => SettingAction::Status(to_string(&chars_of("该行不可编辑（开关用空格，仓库行用 a/d）"))),
    }
}

// ---------------------------------------------------------------------------
// Mirrors tab
// ---------------------------------------------------------------------------

pub open spec fn official_label() -> Seq<char> {
    "官方源"@
}

pub open spec fn candidate_names(ms: Seq<MirrorCandidate>) -> Seq<Seq<char>> {
    ms.map_values(|m: MirrorCandidate| m.name@)
}

pub open spec fn opt_candidates(o: Option<&Vec<MirrorCandidate>>) -> Seq<MirrorCandidate> {
    match o {
        Some(v) => v@,
        None => Seq::empty(),
    }
}

/// The download-mirror choices of a tool: the official source, then each
/// mirror name the tool declares, once.
pub fn mirror_options(mirrors: Option<&Vec<MirrorCandidate>>) -> (r: Vec<String>)
    ensures
        str_views(r@) == merged_new(seq![official_label()], candidate_names(opt_candidates(mirrors))),
{
    let mut out: Vec<String> = Vec::new();
    out.push(to_string(&chars_of("官方源")));
    assert(str_views(out@) =~= seq![official_label()]);
    let ms: &[MirrorCandidate] = match mirrors {
        Some(v) => v.as_slice(),
        None => &[],
    };
    let mut names: Vec<String> = Vec::new();
    let mut i: usize = 0;
    while i < ms.len()
        invariant
            i <= ms.len(),
            ms@ == opt_candidates(mirrors),
            str_views(names@) == candidate_names(ms@).take(i as int),
        decreases ms.len() - i,
    {
        let ghost before = str_views(names@);
        names.push(ms[i].name.clone());
        assert(str_views(names@) =~= before.push(ms@[i as int].name@));
        assert(candidate_names(ms@).take(i + 1) =~= candidate_names(ms@).take(i as int).push(
            ms@[i as int].name@,
        ));
        i = i + 1;
    }
    assert(candidate_names(ms@).take(ms.len() as int) =~= candidate_names(ms@));
    push_new(&mut out, &names);
    out
}

/// The download mirror a tool uses now; nothing for the official source.
pub fn current_mirror_of(mirrors: Option<&Vec<MirrorCandidate>>, rules: &StrMap) -> (r: Option<String>)
    ensures
        opt_view(r) == active_mirror(opt_candidates(mirrors), rules.pairs()),
{
    let ms: &[MirrorCandidate] = match mirrors {
        Some(v) => v.as_slice(),
        None => &[],
    };
    assert(ms@ == opt_candidates(mirrors));
    assert(ms@.skip(0) =~= ms@);
    let mut i: usize = 0;
    while i < ms.len()
        invariant
            i <= ms.len(),
            active_mirror(opt_candidates(mirrors), rules.pairs()) == active_mirror(
                ms@.skip(i as int),
                rules.pairs(),
            ),
        decreases ms.len() - i,
    {
        let m = &ms[i];
        assert(ms@.skip(i as int)[0] == ms@[i as int]);
        assert(ms@.skip(i as int).drop_first() =~= ms@.skip(i + 1));
        if !same_text(&m.from, &m.to) {
            match rules.get(m.from.as_str()) {
                Some(to) => {
                    if same_text(to, &m.to) {
                        return Some(m.name.clone());
                    }
                },
                None => {},
            }
        }
        i = i + 1;
    }
    None
}

pub open spec fn opt_view(o: Option<String>) -> Option<Seq<char>> {
    match o {
        Some(t) => Some(t@),
        None => None,
    }
}

/// The mirror to set when a download-mirror choice is applied: none for
/// the official source, else the chosen name; with the status text.
pub fn chosen_mirror(display: &String, choice: &String) -> (r: (Option<String>, String))
    ensures
        choice@ == official_label() ==> r.0 is None && r.1@ == display@ + " 已恢复官方源"@,
        choice@ != official_label() ==> opt_view(r.0) == Some(choice@) && r.1@ == display@
            + " 下载加速镜像已切换为「"@ + choice@ + "」"@,
{
    let c = chars_of_string(choice);
    let mut t = chars_of_string(display);
    if eq(&c, &chars_of("官方源")) {
        append_str(&mut t, " 已恢复官方源");
        (None, to_string(&t))
    } else {
        append_str(&mut t, " 下载加速镜像已切换为「");
        append(&mut t, &c);
        append_str(&mut t, "」");
        (Some(choice.clone()), to_string(&t))
    }
}

// ---------------------------------------------------------------------------
// Prompts and status texts
// ---------------------------------------------------------------------------

/// Removing a version from the statistics tab: the version in use cannot
/// be removed, nor one that is not installed (status texts); otherwise the
/// question to confirm.
pub fn uninstall_prompt(tool: &String, version: &String, is_current: bool, installed: bool) -> (r:
    Result<String, String>)
    ensures
        is_current ==> (r matches Err(t) && t@ == "当前全局版本不可直接卸载，请先切换/解除全局使用"@),
        !is_current && !installed ==> (r matches Err(t) && t@ == "该版本未安装"@),
        !is_current && installed ==> (r matches Ok(t) && t@ == "卸载 "@ + tool@ + " "@ + version@
            + "？版本目录将被删除，可通过重新安装恢复。"@),
{
    if is_current {
        return Err(to_string(&chars_of("当前全局版本不可直接卸载，请先切换/解除全局使用")));
    }
    if !installed {
        return Err(to_string(&chars_of("该版本未安装")));
    }
    let mut t = chars_of("卸载 ");
    append(&mut t, &chars_of_string(tool));
    append_str(&mut t, " ");
    append(&mut t, &chars_of_string(version));
    append_str(&mut t, "？版本目录将被删除，可通过重新安装恢复。");
    Ok(to_string(&t))
}

/// The status after a version was queued for installation; a task that
/// was already queued is reused and the text says so.
pub fn enqueue_status(tool: &String, version: &String, reused: bool) -> (r: String)
    ensures
        r@ == "已入队安装 "@ + tool@ + " "@ + version@ + " "@ + (if reused {
            "（队列已有相同任务，已复用）"@
        } else {
            ""@
        }) + "。Tab 切到「3 队列」查看进度"@,
{
    let mut t = chars_of("已入队安装 ");
    append(&mut t, &chars_of_string(tool));
    append_str(&mut t, " ");
    append(&mut t, &chars_of_string(version));
    append_str(&mut t, " ");
    if reused {
        append_str(&mut t, "（队列已有相同任务，已复用）");
    }
    proof {
        reveal_strlit("");
    }
    append_str(&mut t, "。Tab 切到「3 队列」查看进度");
    to_string(&t)
}

/// The status texts of switching to an installed version: while it runs,
/// and when it is done.
pub fn switch_statuses(tool: &String, version: &String) -> (r: (String, String))
    ensures
        r.0@ == "正在切换 "@ + tool@ + " -> "@ + version@ + "…"@,
        r.1@ == "✓ "@ + tool@ + " "@ + version@ + " 已设为全局默认"@,
{
    let tc = chars_of_string(tool);
    let vc = chars_of_string(version);
    let mut a = chars_of("正在切换 ");
    append(&mut a, &tc);
    append_str(&mut a, " -> ");
    append(&mut a, &vc);
    append_str(&mut a, "…");
    let mut b = chars_of("✓ ");
    append(&mut b, &tc);
    append_str(&mut b, " ");
    append(&mut b, &vc);
    append_str(&mut b, " 已设为全局默认");
    (to_string(&a), to_string(&b))
}

/// The status when a tool's version list arrived: the tool, its
/// distribution when it has one, and the number of versions.
pub fn versions_status(tool: &String, distribution: Option<&String>, count: u64) -> (r: String)
    ensures
        r@ == tool@ + (match distribution {
            Some(d) => " · "@ + d@,
            None => ""@,
        }) + " 可用版本 "@ + dec_digits(count as nat) + " 个（Tab 在版本列表导航）"@,
{
    let mut t = chars_of_string(tool);
    if let Some(d) = distribution {
        append_str(&mut t, " · ");
        append(&mut t, &chars_of_string(d));
    }
    proof {
        reveal_strlit("");
    }
    append_str(&mut t, " 可用版本 ");
    append(&mut t, &decimal(count));
    append_str(&mut t, " 个（Tab 在版本列表导航）");
    to_string(&t)
}

/// Deleting a registry preset: only a custom one can be deleted (the
/// question to confirm); a built-in one gets a status text.
pub fn preset_delete_prompt(tool: &String, name: &String, is_custom: bool) -> (r: Result<String, String>)
    ensures
        is_custom ==> (r matches Ok(t) && t@ == "删除 "@ + tool@ + " 自定义源「"@ + name@ + "」？"@),
        !is_custom ==> (r matches Err(t) && t@ == "内置预设不可删除"@),
{
    if !is_custom {
        return Err(to_string(&chars_of("内置预设不可删除")));
    }
    let mut t = chars_of("删除 ");
    append(&mut t, &chars_of_string(tool));
    append_str(&mut t, " 自定义源「");
    append(&mut t, &chars_of_string(name));
    append_str(&mut t, "」？");
    Ok(to_string(&t))
}

/// The question before a local plugin is deleted (its installed versions
/// stay).
pub fn plugin_delete_prompt(display: &String) -> (r: String)
    ensures
        r@ == "删除插件 "@ + display@ + "（仅删定义，已装版本保留）？"@,
{
    let mut t = chars_of("删除插件 ");
    append(&mut t, &chars_of_string(display));
    append_str(&mut t, "（仅删定义，已装版本保留）？");
    to_string(&t)
}

/// The question before a plugin registry is removed.
pub fn registry_delete_prompt(name: &String) -> (r: String)
    ensures
        r@ == "删除插件仓库「"@ + name@ + "」？"@,
{
    let mut t = chars_of("删除插件仓库「");
    append(&mut t, &chars_of_string(name));
    append_str(&mut t, "」？");
    to_string(&t)
}

/// The text of the status bar: the last error, marked, when there is one;
/// else the status. The flag tells whether an error is shown.
pub fn status_text(error: Option<&String>, status: &String) -> (r: (String, bool))
    ensures
        match error {
            Some(e) => r.0@ == "✗ "@ + e@ && r.1,
            None => r.0@ == status@ && !r.1,
        },
{
    match error {
        Some(e) => {
            let mut t = chars_of("✗ ");
            append(&mut t, &chars_of_string(e));
            (to_string(&t), true)
        },
        None => (status.clone(), false),
    }
}

pub open spec fn hint_of(tab: usize) -> Seq<char> {
    if tab == 0 {
        "q 退出  1-7/鼠标点 Tab  ↑↓ 导航  Enter 操作  Tab 焦点"@
    } else if tab == 1 {
        "m 本地/市场  空格 启停   i/Enter 安装   d/Del 删除   o 打开目录   r 刷新  ·鼠标点Tab"@
    } else if tab == 2 {
        "c 取消  x 清空终态  ·鼠标点Tab"@
    } else if tab == 3 {
        "m 源/加速  Enter 应用/切换  a 添加自定义  d/Del 删除自定义  r 刷新  ·鼠标点Tab"@
    } else if tab == 4 {
        "u 卸载  r 刷新  Tab 焦点  ·鼠标点Tab"@
    } else if tab == 5 {
        "空格 开关  e 编辑  a 添加仓库  d/Del 删除仓库  r 刷新  ·鼠标点Tab"@
    } else {
        "全部功能一览  ·鼠标点Tab"@
    }
}

/// The key hints shown in the status bar of each tab.
pub fn key_hint(tab: usize) -> (r: &'static str)
    ensures
        r@ == hint_of(tab),
{
    if tab == 0 {
        "q 退出  1-7/鼠标点 Tab  ↑↓ 导航  Enter 操作  Tab 焦点"
    } else if tab == 1 {
        "m 本地/市场  空格 启停   i/Enter 安装   d/Del 删除   o 打开目录   r 刷新  ·鼠标点Tab"
    } else if tab == 2 {
        "c 取消  x 清空终态  ·鼠标点Tab"
    } else if tab == 3 {
        "m 源/加速  Enter 应用/切换  a 添加自定义  d/Del 删除自定义  r 刷新  ·鼠标点Tab"
    } else if tab == 4 {
        "u 卸载  r 刷新  Tab 焦点  ·鼠标点Tab"
    } else if tab == 5 {
        "空格 开关  e 编辑  a 添加仓库  d/Del 删除仓库  r 刷新  ·鼠标点Tab"
    } else {
        "全部功能一览  ·鼠标点Tab"
    }
}

} // verus!
