//! A Lua plugin's definition, built from what its script declares: the
//! `TOOL` table (names, verification command, environment variables,
//! distributions, download mirrors, icon) and the hooks it defines.
//!
//! Running the script is the caller's part; this module checks what came
//! out of it and fills in the fallbacks.

use vstd::prelude::*;

use crate::error::{EnvHiveError, EnvHiveErrorKind};
use crate::text::{append_str, chars_of, to_string, trim, trim_v};
use crate::tool::{dist_view, dist_views, mirror_view, mirror_views, opt_string, DistributionInfo, MirrorCandidate};

verus! {

/// One row of `TOOL.distributions` as the script wrote it.
#[derive(Debug)]
pub struct RawDistribution {
    pub key: Option<String>,
    pub display: Option<String>,
    pub default: Option<bool>,
}

/// One row of `TOOL.mirrors` as the script wrote it.
#[derive(Debug)]
pub struct RawMirror {
    pub name: Option<String>,
    pub from: Option<String>,
    pub to: Option<String>,
}

/// The `TOOL` table of a plugin script: each field is `None` where the
/// script leaves it out (or gives it a value of another type).
#[derive(Debug)]
pub struct RawToolTable {
    pub display: Option<String>,
    pub category: Option<String>,
    pub homepage: Option<String>,
    pub version: Option<String>,
    pub verify_bin: Option<String>,
    pub verify_arg: Option<String>,
    pub bin_suffix: Option<String>,
    pub root_hint: Option<String>,
    pub env_vars: Vec<(String, String)>,
    pub distributions: Vec<RawDistribution>,
    pub default_distribution: Option<String>,
    pub mirrors: Vec<RawMirror>,
    pub default_mirror: Option<String>,
    pub icon_base64: Option<String>,
}

/// What running a plugin script left behind: its `TOOL` table, if any, and
/// whether it defines the required `available` and `pre_install` hooks.
#[derive(Debug)]
pub struct ScriptGlobals {
    pub tool: Option<RawToolTable>,
    pub has_available: bool,
    pub has_pre_install: bool,
}

/// A loaded Lua plugin.
#[derive(Debug)]
pub struct LuaPluginDef {
    pub name: String,
    pub display: String,
    pub category: String,
    pub homepage: String,
    /// The plugin's own version, when it declares a non-empty one.
    pub version: Option<String>,
    /// Empty: the installed tool is not run to check it.
    pub verify_bin: String,
    pub verify_arg: String,
    pub bin_suffix: String,
    pub root_hint: Option<String>,
    /// Values may hold the `{root}` placeholder.
    pub env_vars: Vec<(String, String)>,
    pub distributions: Vec<DistributionInfo>,
    pub default_distribution: Option<String>,
    pub mirrors: Vec<MirrorCandidate>,
    pub default_mirror: Option<String>,
    pub icon_base64: Option<String>,
    /// The plugin's private module directory (`plugins/<name>/lib`).
    pub lib_dir: String,
    pub script: String,
    pub data_root: String,
}

/// A text field, empty where the script leaves it out.
pub open spec fn text_or_empty(o: Option<String>) -> Seq<char> {
    match o {
        Some(s) => s@,
        None => Seq::empty(),
    }
}

/// The distribution rows that count: those with a non-empty key; the
/// display name falls back to the key.
pub open spec fn kept_distributions(rows: Seq<RawDistribution>) -> Seq<(Seq<char>, Seq<char>)>
    decreases rows.len(),
{
    if rows.len() == 0 {
        Seq::empty()
    } else {
        let prev = kept_distributions(rows.drop_last());
        let r = rows.last();
        match r.key {
            Some(k) => if k@.len() > 0 {
                prev.push(
                    (
                        k@,
                        match r.display {
                            Some(d) => d@,
                            None => k@,
                        },
                    ),
                )
            } else {
                prev
            },
            None => prev,
        }
    }
}

/// The key of the first row marked `default = true` (`None` when there is
/// no such row, or when it has no key).
pub open spec fn first_default_key(rows: Seq<RawDistribution>) -> Option<Seq<char>>
    decreases rows.len(),
{
    if rows.len() == 0 {
        None
    } else if rows[0].default == Some(true) {
        opt_string(rows[0].key)
    } else {
        first_default_key(rows.drop_first())
    }
}

/// The declared default distribution, else the key of the first row marked
/// as the default.
pub open spec fn default_distribution_of(t: RawToolTable) -> Option<Seq<char>> {
    match t.default_distribution {
        Some(d) => Some(d@),
        None => first_default_key(t.distributions@),
    }
}

/// A mirror row counts when its name, source and target are all given and
/// non-empty.
pub open spec fn kept_mirrors(rows: Seq<RawMirror>) -> Seq<(Seq<char>, Seq<char>, Seq<char>)>
    decreases rows.len(),
{
    if rows.len() == 0 {
        Seq::empty()
    } else {
        let prev = kept_mirrors(rows.drop_last());
        let r = rows.last();
        if r.name is Some && r.from is Some && r.to is Some && r.name->0@.len() > 0
            && r.from->0@.len() > 0 && r.to->0@.len() > 0 {
            prev.push((r.name->0@, r.from->0@, r.to->0@))
        } else {
            prev
        }
    }
}

/// An optional text that counts only when non-empty.
pub open spec fn non_empty(o: Option<String>) -> Option<Seq<char>> {
    match o {
        Some(s) => if s@.len() > 0 {
            Some(s@)
        } else {
            None
        },
        None => None,
    }
}

/// An optional text that counts only when it is not blank.
pub open spec fn non_blank(o: Option<String>) -> Option<Seq<char>> {
    match o {
        Some(s) => if trim(s@).len() > 0 {
            Some(s@)
        } else {
            None
        },
        None => None,
    }
}

pub open spec fn env_pair_views(v: Seq<(String, String)>) -> Seq<(Seq<char>, Seq<char>)> {
    v.map_values(|p: (String, String)| (p.0@, p.1@))
}

/// `d` is the definition of plugin `name` built from its `TOOL` table `t`.
pub open spec fn built_from(
    d: LuaPluginDef,
    name: Seq<char>,
    script: Seq<char>,
    data_root: Seq<char>,
    lib_dir: Seq<char>,
    t: RawToolTable,
) -> bool {
    &&& d.name@ == name
    &&& d.display@ == (if text_or_empty(t.display).len() > 0 {
        text_or_empty(t.display)
    } else {
        name
    })
    &&& d.category@ == text_or_empty(t.category)
    &&& d.homepage@ == text_or_empty(t.homepage)
    &&& opt_string(d.version) == non_empty(t.version)
    &&& d.verify_bin@ == text_or_empty(t.verify_bin)
    &&& d.verify_arg@ == text_or_empty(t.verify_arg)
    &&& d.bin_suffix@ == text_or_empty(t.bin_suffix)
    &&& opt_string(d.root_hint) == opt_string(t.root_hint)
    &&& env_pair_views(d.env_vars@) == env_pair_views(t.env_vars@)
    &&& dist_views(d.distributions@) == kept_distributions(t.distributions@)
    &&& opt_string(d.default_distribution) == default_distribution_of(t)
    &&& mirror_views(d.mirrors@) == kept_mirrors(t.mirrors@)
    &&& opt_string(d.default_mirror) == opt_string(t.default_mirror)
    &&& opt_string(d.icon_base64) == non_blank(t.icon_base64)
    &&& d.lib_dir@ == lib_dir
    &&& d.script@ == script
    &&& d.data_root@ == data_root
}

pub open spec fn missing_table_message(name: Seq<char>) -> Seq<char> {
    "Lua 插件 "@ + name + " 缺少 工具 元信息表"@
}

pub open spec fn missing_hook_message(name: Seq<char>, hook: Seq<char>) -> Seq<char> {
    "Lua 插件 "@ + name + " 缺少必需的 "@ + hook + "() hook"@
}

fn plugin_error(name: &str, middle: &str, hook: &str, tail: &str) -> (e: EnvHiveError)
    ensures
        e.kind == EnvHiveErrorKind::Config,
        e.message@ == "Lua 插件 "@ + name@ + middle@ + hook@ + tail@,
{
    let mut m: Vec<char> = Vec::new();
    append_str(&mut m, "Lua 插件 ");
    append_str(&mut m, name);
    append_str(&mut m, middle);
    append_str(&mut m, hook);
    append_str(&mut m, tail);
    EnvHiveError::new(EnvHiveErrorKind::Config, to_string(&m))
}

fn filled(s: &String) -> (r: bool)
    ensures
        r == (s@.len() > 0),
{
    chars_of(s.as_str()).len() > 0
}

fn text_of(o: Option<String>) -> (r: String)
    ensures
        r@ == text_or_empty(o),
{
    match o {
        Some(s) => s,
        None => String::new(),
    }
}

fn keep_distributions(rows: &Vec<RawDistribution>) -> (r: Vec<DistributionInfo>)
    ensures
        dist_views(r@) == kept_distributions(rows@),
{
    let mut r: Vec<DistributionInfo> = Vec::new();
    let mut i: usize = 0;
    while i < rows.len()
        invariant
            i <= rows.len(),
            dist_views(r@) == kept_distributions(rows@.take(i as int)),
        decreases rows.len() - i,
    {
        let ghost before = r@;
        assert(rows@.take(i + 1).drop_last() =~= rows@.take(i as int));
        assert(rows@.take(i + 1).last() == rows@[i as int]);
        let row = &rows[i];
        match &row.key {
            Some(k) => {
                if filled(k) {
                    let display = match &row.display {
                        Some(d) => d.clone(),
                        None => k.clone(),
                    };
                    r.push(DistributionInfo { key: k.clone(), display });
                    assert(dist_views(r@) =~= dist_views(before).push(dist_view(r@[before.len() as int])));
                }
            },
            None => {},
        }
        i = i + 1;
    }
    assert(rows@.take(rows.len() as int) =~= rows@);
    r
}

fn default_key(rows: &Vec<RawDistribution>) -> (r: Option<String>)
    ensures
        opt_string(r) == first_default_key(rows@),
{
    let mut i: usize = 0;
    assert(rows@.skip(0) =~= rows@);
    while i < rows.len()
        invariant
            i <= rows.len(),
            first_default_key(rows@) == first_default_key(rows@.skip(i as int)),
        decreases rows.len() - i,
    {
        let ghost rest = rows@.skip(i as int);
        assert(rest[0] == rows@[i as int]);
        if rows[i].default == Some(true) {
            return match &rows[i].key {
                Some(k) => Some(k.clone()),
                None => None,
            };
        }
        assert(rest.drop_first() =~= rows@.skip(i + 1));
        i = i + 1;
    }
    None
}

fn keep_mirrors(rows: &Vec<RawMirror>) -> (r: Vec<MirrorCandidate>)
    ensures
        mirror_views(r@) == kept_mirrors(rows@),
{
    let mut r: Vec<MirrorCandidate> = Vec::new();
    let mut i: usize = 0;
    while i < rows.len()
        invariant
            i <= rows.len(),
            mirror_views(r@) == kept_mirrors(rows@.take(i as int)),
        decreases rows.len() - i,
    {
        let ghost before = r@;
        assert(rows@.take(i + 1).drop_last() =~= rows@.take(i as int));
        assert(rows@.take(i + 1).last() == rows@[i as int]);
        let row = &rows[i];
        match (&row.name, &row.from, &row.to) {
            (Some(n), Some(f), Some(t)) => {
                if filled(n) && filled(f) && filled(t) {
                    r.push(MirrorCandidate { name: n.clone(), from: f.clone(), to: t.clone() });
                    assert(mirror_views(r@) =~= mirror_views(before).push(
                        mirror_view(r@[before.len() as int]),
                    ));
                }
            },
            _ => {},
        }
        i = i + 1;
    }
    assert(rows@.take(rows.len() as int) =~= rows@);
    r
}

fn copy_env_pairs(v: &Vec<(String, String)>) -> (r: Vec<(String, String)>)
    ensures
        env_pair_views(r@) == env_pair_views(v@),
{
    let mut r: Vec<(String, String)> = Vec::new();
    let mut i: usize = 0;
    while i < v.len()
        invariant
            i <= v.len(),
            env_pair_views(r@) == env_pair_views(v@).take(i as int),
        decreases v.len() - i,
    {
        let ghost before = env_pair_views(r@);
        r.push((v[i].0.clone(), v[i].1.clone()));
        assert(env_pair_views(r@) =~= before.push((v@[i as int].0@, v@[i as int].1@)));
        assert(env_pair_views(v@).take(i + 1) =~= env_pair_views(v@).take(i as int).push(
            (v@[i as int].0@, v@[i as int].1@),
        ));
        i = i + 1;
    }
    assert(env_pair_views(v@).take(v.len() as int) =~= env_pair_views(v@));
    r
}

/// Builds the definition of plugin `name` from what its script declares.
/// A script without a `TOOL` table, or without an `available` or a
/// `pre_install` hook, is refused, in that order.
pub fn build_plugin_def(
    name: &str,
    script: &str,
    data_root: &str,
    lib_dir: &str,
    globals: ScriptGlobals,
) -> (r: Result<LuaPluginDef, EnvHiveError>)
    ensures
        match globals.tool {
            None => r matches Err(e) && e.kind == EnvHiveErrorKind::Config && e.message@
                == missing_table_message(name@),
            Some(t) => if !globals.has_available {
                r matches Err(e) && e.kind == EnvHiveErrorKind::Config && e.message@
                    == missing_hook_message(name@, "available"@)
            } else if !globals.has_pre_install {
                r matches Err(e) && e.kind == EnvHiveErrorKind::Config && e.message@
                    == missing_hook_message(name@, "pre_install"@)
            } else {
                r matches Ok(d) && built_from(d, name@, script@, data_root@, lib_dir@, t)
            },
        },
{
    let t = match globals.tool {
        Some(t) => t,
        None => {
            let e = plugin_error(name, " 缺少 工具 元信息表", "", "");
            proof {
                reveal_strlit("");
                assert(e.message@ =~= missing_table_message(name@));
            }
            return Err(e);
        },
    };
    if !globals.has_available {
        return Err(plugin_error(name, " 缺少必需的 ", "available", "() hook"));
    }
    if !globals.has_pre_install {
        return Err(plugin_error(name, " 缺少必需的 ", "pre_install", "() hook"));
    }
    let distributions = keep_distributions(&t.distributions);
    let default_distribution = match &t.default_distribution {
        Some(d) => Some(d.clone()),
        None => default_key(&t.distributions),
    };
    let mirrors = keep_mirrors(&t.mirrors);
    let env_vars = copy_env_pairs(&t.env_vars);
    let display0 = text_of(t.display);
    let display = if filled(&display0) {
        display0
    } else {
        to_string(&chars_of(name))
    };
    let version = match t.version {
        Some(v) => if filled(&v) {
            Some(v)
        } else {
            None
        },
        None => None,
    };
    let icon_base64 = match t.icon_base64 {
        Some(s) => if trim_v(&chars_of(s.as_str())).len() > 0 {
            Some(s)
        } else {
            None
        },
        None => None,
    };
    Ok(
        LuaPluginDef {
            name: to_string(&chars_of(name)),
            display,
            category: text_of(t.category),
            homepage: text_of(t.homepage),
            version,
            verify_bin: text_of(t.verify_bin),
            verify_arg: text_of(t.verify_arg),
            bin_suffix: text_of(t.bin_suffix),
            root_hint: t.root_hint,
            env_vars,
            distributions,
            default_distribution,
            mirrors,
            default_mirror: t.default_mirror,
            icon_base64,
            lib_dir: to_string(&chars_of(lib_dir)),
            script: to_string(&chars_of(script)),
            data_root: to_string(&chars_of(data_root)),
        },
    )
}

} // verus!
