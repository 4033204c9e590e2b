//! Plugins: `plugins/<name>/plugin.lua`; a directory `<name>.disabled` holds
//! a disabled plugin. These functions decide from a listing of the plugin
//! directory, which the caller reads.

use vstd::prelude::*;

use crate::error::{EnvHiveError, EnvHiveErrorKind};
use crate::text::{
    append, append_str, chars_of, chars_of_string, debug_quote, debug_str, ends_with, ends_with_v,
    slice_of, starts_with, starts_with_v, strip_trail, strip_trail_v, to_string, trim, trim_v,
};
use crate::tool::DistributionInfo;

verus! {

/// The suffix of a disabled plugin's directory.
pub open spec fn disabled_suffix() -> Seq<char> {
    ".disabled"@
}

/// A directory of the plugin directory: its name, whether it is a directory,
/// and whether it holds `plugin.lua`.
pub struct PluginDirEntry {
    pub name: String,
    pub is_dir: bool,
    pub has_script: bool,
}

/// The plugin name of a directory and whether the plugin is enabled.
pub open spec fn plugin_of_dir(raw: Seq<char>) -> (Seq<char>, bool) {
    if ends_with(raw, disabled_suffix()) {
        (raw.take(raw.len() - disabled_suffix().len()), false)
    } else {
        (raw, true)
    }
}

fn suffix_v() -> (r: Vec<char>)
    ensures
        r@ == disabled_suffix(),
        r@.len() == 9,
{
    let r = vec!['.', 'd', 'i', 's', 'a', 'b', 'l', 'e', 'd'];
    proof {
        reveal_strlit(".disabled");
    }
    assert(r@ =~= ".disabled"@);
    r
}

/// The plugin a directory holds: its name without `.disabled`, and whether
/// it is enabled.
pub fn plugin_entry(raw: &str) -> (r: (String, bool))
    ensures
        (r.0@, r.1) == plugin_of_dir(raw@),
{
    let c = chars_of(raw);
    let suf = suffix_v();
    if ends_with_v(&c, &suf) {
        let base = slice_of(&c, 0, c.len() - suf.len());
        assert(base@ =~= c@.take(c@.len() - disabled_suffix().len()));
        (to_string(&base), false)
    } else {
        (to_string(&c), true)
    }
}

/// The directory that holds a plugin: its name, with `.disabled` when it is
/// disabled (enabling and disabling rename one into the other).
pub open spec fn dir_of_plugin(name: Seq<char>, enabled: bool) -> Seq<char> {
    if enabled {
        name
    } else {
        name + disabled_suffix()
    }
}

pub fn plugin_dir_name(name: &str, enabled: bool) -> (r: String)
    ensures
        r@ == dir_of_plugin(name@, enabled),
{
    let mut c = chars_of(name);
    if !enabled {
        let suf = suffix_v();
        append(&mut c, &suf);
    }
    to_string(&c)
}

/// A plugin's directory, enabled or disabled, reads back as that plugin in
/// that state (for a name that does not itself end with `.disabled`).
pub proof fn lemma_plugin_dir_reads_back(name: Seq<char>, enabled: bool)
    requires
        !ends_with(name, disabled_suffix()),
    ensures
        plugin_of_dir(dir_of_plugin(name, enabled)) == (name, enabled),
{
    if !enabled {
        let d = name + disabled_suffix();
        assert(d.skip(d.len() - disabled_suffix().len()) =~= disabled_suffix());
        assert(d.take(d.len() - disabled_suffix().len()) =~= name);
    }
}

/// The status after a plugin was switched on or off.
pub fn toggled_status(name: &str, enabled: bool) -> (r: String)
    ensures
        r@ == "插件 "@ + name@ + (if enabled {
            " 已启用"@
        } else {
            " 已禁用"@
        }),
{
    let mut t = chars_of("插件 ");
    append_str(&mut t, name);
    if enabled {
        append_str(&mut t, " 已启用");
    } else {
        append_str(&mut t, " 已禁用");
    }
    to_string(&t)
}

/// The enabled plugins, in listing order: directories not named
/// `*.disabled` that hold `plugin.lua`.
pub open spec fn enabled_plugins(es: Seq<PluginDirEntry>) -> Seq<Seq<char>>
    decreases es.len(),
{
    if es.len() == 0 {
        Seq::empty()
    } else {
        let acc = enabled_plugins(es.drop_last());
        let e = es.last();
        if e.is_dir && !ends_with(e.name@, disabled_suffix()) && e.has_script {
            acc.push(e.name@)
        } else {
            acc
        }
    }
}

/// All plugins, disabled ones too, each with whether it is enabled.
pub open spec fn all_plugins(es: Seq<PluginDirEntry>) -> Seq<(Seq<char>, bool)>
    decreases es.len(),
{
    if es.len() == 0 {
        Seq::empty()
    } else {
        let acc = all_plugins(es.drop_last());
        let e = es.last();
        if e.is_dir && e.has_script {
            acc.push(plugin_of_dir(e.name@))
        } else {
            acc
        }
    }
}

/// The names of the enabled plugins.
pub fn list_plugins(entries: &[PluginDirEntry]) -> (r: Vec<String>)
    ensures
        r@.map_values(|s: String| s@) == enabled_plugins(entries@),
{
    let suf = suffix_v();
    let mut out: Vec<String> = Vec::new();
    let mut i: usize = 0;
    while i < entries.len()
        invariant
            i <= entries.len(),
            suf@ == disabled_suffix(),
            out@.map_values(|s: String| s@) == enabled_plugins(entries@.take(i as int)),
        decreases entries.len() - i,
    {
        let e = &entries[i];
        assert(entries@.take(i + 1).drop_last() =~= entries@.take(i as int));
        if e.is_dir && !ends_with_v(&chars_of_string(&e.name), &suf) && e.has_script {
            let ghost before = out@.map_values(|s: String| s@);
            out.push(e.name.clone());
            assert(out@.map_values(|s: String| s@) =~= before.push(e.name@));
        }
        i = i + 1;
    }
    assert(entries@.take(entries.len() as int) =~= entries@);
    out
}

/// Every plugin, with whether it is enabled.
pub fn list_all_plugins(entries: &[PluginDirEntry]) -> (r: Vec<(String, bool)>)
    ensures
        r@.map_values(|p: (String, bool)| (p.0@, p.1)) == all_plugins(entries@),
{
    let mut out: Vec<(String, bool)> = Vec::new();
    let mut i: usize = 0;
    while i < entries.len()
        invariant
            i <= entries.len(),
            out@.map_values(|p: (String, bool)| (p.0@, p.1)) == all_plugins(
                entries@.take(i as int),
            ),
        decreases entries.len() - i,
    {
        let e = &entries[i];
        assert(entries@.take(i + 1).drop_last() =~= entries@.take(i as int));
        if e.is_dir && e.has_script {
            let ghost before = out@.map_values(|p: (String, bool)| (p.0@, p.1));
            let p = plugin_entry(e.name.as_str());
            out.push(p);
            assert(out@.map_values(|p: (String, bool)| (p.0@, p.1)) =~= before.push(
                plugin_of_dir(e.name@),
            ));
        }
        i = i + 1;
    }
    assert(entries@.take(entries.len() as int) =~= entries@);
    out
}

/// Where a plugin came from: `market` (installed from the plugin repository,
/// marked by a `.market` file in its directory) or `local`.
pub fn plugin_source(has_market_marker: bool) -> (r: &'static str)
    ensures
        r@ == (if has_market_marker {
            "market"@
        } else {
            "local"@
        }),
{
    if has_market_marker {
        "market"
    } else {
        "local"
    }
}

/// A plugin's source, for the editor.
pub struct PluginSource {
    pub name: String,
    pub provider: String,
    pub script: String,
}

/// A plugin as shown in the plugin list.
pub struct PluginInfo {
    pub name: String,
    pub display: String,
    pub category: String,
    pub homepage: String,
    pub provider: String,
    pub version: Option<String>,
    pub installed_versions: Vec<String>,
    pub source: String,
    pub distributions: Vec<DistributionInfo>,
    pub path: String,
    pub updated_at: Option<i64>,
    pub enabled: bool,
    pub icon: Option<String>,
}

// ---------------------------------------------------------------------------
// Adding, updating and fetching plugins
// ---------------------------------------------------------------------------

pub open spec fn bad_name_message(name: Seq<char>) -> Seq<char> {
    "非法 工具 名称: "@ + debug_str(name)
}

/// A plugin is added or updated only under a name that is a single safe
/// path component.
pub fn check_plugin_name(name: &str) -> (r: Result<(), EnvHiveError>)
    ensures
        crate::util::safe_name(name@) ==> r is Ok,
        !crate::util::safe_name(name@) ==> (r matches Err(e) && e.kind == EnvHiveErrorKind::Config
            && e.message@ == bad_name_message(name@)),
{
    if crate::util::safe_component(name) {
        return Ok(());
    }
    let mut m = chars_of("非法 工具 名称: ");
    append(&mut m, &debug_quote(&chars_of(name)));
    Err(EnvHiveError::new(EnvHiveErrorKind::Config, to_string(&m)))
}

pub open spec fn missing_plugin_message(name: Seq<char>) -> Seq<char> {
    "Lua 插件 "@ + name + " 不存在（新建插件请用「新建插件」）"@
}

/// Updating needs the plugin to exist already (new plugins are added, not
/// updated).
pub fn check_plugin_exists(name: &str, exists: bool) -> (r: Result<(), EnvHiveError>)
    ensures
        exists ==> r is Ok,
        !exists ==> (r matches Err(e) && e.kind == EnvHiveErrorKind::ToolNotFound && e.message@
            == missing_plugin_message(name@)),
{
    if exists {
        return Ok(());
    }
    let mut m = chars_of("Lua 插件 ");
    append_str(&mut m, name);
    append_str(&mut m, " 不存在（新建插件请用「新建插件」）");
    Err(EnvHiveError::new(EnvHiveErrorKind::ToolNotFound, to_string(&m)))
}

/// The repository address asked for, cleaned (trimmed, trailing `/`
/// removed), when it is not empty.
pub open spec fn asked_address(address: Option<Seq<char>>) -> Option<Seq<char>> {
    match address {
        Some(a) => if strip_trail(trim(a), '/').len() > 0 {
            Some(strip_trail(trim(a), '/'))
        } else {
            None
        },
        None => None,
    }
}

/// The repository the market is fetched from: the address asked for, else
/// the first configured one; an error when there is none, or when it is no
/// `http://` or `https://` address.
pub open spec fn registry_target(address: Option<Seq<char>>, configured: Seq<Seq<char>>) -> Option<
    Seq<char>,
> {
    match asked_address(address) {
        Some(a) => Some(a),
        None => if configured.len() > 0 {
            Some(configured[0])
        } else {
            None
        },
    }
}

pub open spec fn web_address(a: Seq<char>) -> bool {
    starts_with(a, "https://"@) || starts_with(a, "http://"@)
}

pub fn remote_registry_target(address: Option<&str>, configured: &Vec<String>) -> (r: Result<
    String,
    EnvHiveError,
>)
    ensures
        ({
            let cfg = configured@.map_values(|s: String| s@);
            let a = match address {
                Some(t) => Some(t@),
                None => None,
            };
            match registry_target(a, cfg) {
                None => r matches Err(e) && e.kind == EnvHiveErrorKind::Config && e.message@
                    == "未配置远程插件仓库地址"@,
                Some(t) => if web_address(t) {
                    r matches Ok(u) && u@ == t
                } else {
                    r matches Err(e) && e.kind == EnvHiveErrorKind::Config && e.message@
                        == "插件仓库地址需以 http:// 或 https:// 开头"@
                },
            }
        }),
{
    let asked: Option<Vec<char>> = match address {
        Some(t) => {
            let c = strip_trail_v(&trim_v(&chars_of(t)), '/');
            if c.len() > 0 {
                Some(c)
            } else {
                None
            }
        },
        None => None,
    };
    let target: Vec<char> = match asked {
        Some(c) => c,
        None => {
            if configured.len() == 0 {
                return Err(
                    EnvHiveError::new(
                        EnvHiveErrorKind::Config,
                        to_string(&chars_of("未配置远程插件仓库地址")),
                    ),
                );
            }
            assert(configured@.map_values(|s: String| s@)[0] == configured@[0]@);
            chars_of_string(&configured[0])
        },
    };
    if !starts_with_v(&target, &chars_of("https://")) && !starts_with_v(&target, &chars_of("http://")) {
        return Err(
            EnvHiveError::new(
                EnvHiveErrorKind::Config,
                to_string(&chars_of("插件仓库地址需以 http:// 或 https:// 开头")),
            ),
        );
    }
    Ok(to_string(&target))
}

} // verus!
