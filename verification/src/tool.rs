//! Tool descriptions and what is derived from them: the effective download
//! mirror and distribution, version-cache keys, the environment a tool
//! contributes, and the records shown for a tool.

use vstd::prelude::*;

use crate::env::{Envs, EnvVars};
use crate::error::{EnvHiveError, EnvHiveErrorKind};
use crate::sort::{is_perm, lemma_sorted_transfer, sorted_by, stable_order, TextPairKey, pair_le};
use crate::strmap::StrMap;
use crate::text::{append_str, chars_of, chars_of_string, eq, starts_with, starts_with_v, slice_of, to_string};
use crate::version::Version;

verus! {

/// An environment variable a tool sets.
#[derive(Debug, Clone, Copy, PartialEq, Eq, Structural)]
pub enum EnvVarKind {
    /// The version's root directory (as `JAVA_HOME`), through the current link.
    RootDir,
}

/// Platform names a plugin uses: its name for the OS, and for each
/// architecture its own name.
pub struct PlatformMap {
    pub os: String,
    pub arch: StrMap,
}

/// A distribution a tool offers (e.g. a JDK vendor).
#[derive(Debug, Clone)]
pub struct DistributionInfo {
    pub key: String,
    pub display: String,
}

/// A download mirror of a tool: URLs starting with `from` are fetched from
/// `to` instead; an entry with `from == to` stands for the official source.
#[derive(Debug, Clone)]
pub struct MirrorCandidate {
    pub name: String,
    pub from: String,
    pub to: String,
}

/// What a tool's plugin declares.
pub struct ToolDesc {
    pub name: String,
    pub display: String,
    pub category: String,
    pub homepage: String,
    pub bin_suffix: String,
    pub env_vars: Vec<(String, EnvVarKind)>,
    pub distributions: Vec<DistributionInfo>,
    pub default_distribution: Option<String>,
    pub mirrors: Vec<MirrorCandidate>,
    pub default_mirror: Option<String>,
    pub icon_base64: Option<String>,
}

pub open spec fn opt_seq(o: Option<&str>) -> Option<Seq<char>> {
    match o {
        Some(s) => Some(s@),
        None => None,
    }
}

pub open spec fn mirror_named(ms: Seq<MirrorCandidate>, n: Seq<char>) -> bool {
    exists|i: int| 0 <= i < ms.len() && ms[i].name@ == n
}

/// The first mirror that is not the official source.
pub open spec fn first_unofficial(ms: Seq<MirrorCandidate>) -> Option<int> {
    if exists|i: int| 0 <= i < ms.len() && ms[i].from@ != ms[i].to@ {
        Some(choose|i: int| 0 <= i < ms.len() && ms[i].from@ != ms[i].to@ && forall|j: int|
            0 <= j < i ==> ms[j].from@ == ms[j].to@)
    } else {
        None
    }
}

/// The mirror in effect: the declared default when it is one of the
/// mirrors, else the first one that is not the official source; none when
/// the tool declares no mirrors.
pub open spec fn effective_mirror(ms: Seq<MirrorCandidate>, default: Option<Seq<char>>) -> Option<
    Seq<char>,
> {
    if ms.len() == 0 {
        None
    } else if default is Some && mirror_named(ms, default->0) {
        default
    } else {
        match first_unofficial(ms) {
            Some(i) => Some(ms[i].name@),
            None => None,
        }
    }
}

fn has_mirror(ms: &[MirrorCandidate], n: &str) -> (r: bool)
    ensures
        r == mirror_named(ms@, n@),
{
    let nc = chars_of(n);
    let mut i: usize = 0;
    while i < ms.len()
        invariant
            i <= ms.len(),
            nc@ == n@,
            forall|j: int| 0 <= j < i ==> ms@[j].name@ != n@,
        decreases ms.len() - i,
    {
        if eq(&chars_of_string(&ms[i].name), &nc) {
            return true;
        }
        i = i + 1;
    }
    false
}

/// The mirror in effect for a tool, by name.
pub fn effective_mirror_name(mirrors: &[MirrorCandidate], default_mirror: Option<&str>) -> (r:
    Option<String>)
    ensures
        match r {
            Some(n) => effective_mirror(mirrors@, opt_seq(default_mirror)) == Some(n@),
            None => effective_mirror(mirrors@, opt_seq(default_mirror)) is None,
        },
{
    if mirrors.len() == 0 {
        return None;
    }
    match default_mirror {
        Some(d) => {
            if has_mirror(mirrors, d) {
                return Some(to_string(&chars_of(d)));
            }
        },
        None => {},
    }
    let mut i: usize = 0;
    while i < mirrors.len()
        invariant
            i <= mirrors.len(),
            mirrors@.len() > 0,
            !(opt_seq(default_mirror) is Some && mirror_named(mirrors@, opt_seq(default_mirror)->0)),
            forall|j: int| 0 <= j < i ==> mirrors@[j].from@ == mirrors@[j].to@,
        decreases mirrors.len() - i,
    {
        let m = &mirrors[i];
        if !eq(&chars_of_string(&m.from), &chars_of_string(&m.to)) {
            proof {
                let ms = mirrors@;
                let c = choose|k: int| 0 <= k < ms.len() && ms[k].from@ != ms[k].to@ && forall|j: int|
                    0 <= j < k ==> ms[j].from@ == ms[j].to@;
                assert(ms[i as int].from@ != ms[i as int].to@ && forall|j: int|
                    0 <= j < i ==> ms[j].from@ == ms[j].to@);
                if c < i {
                    assert(ms[c].from@ == ms[c].to@);
                }
                if c > i {
                    assert(ms[i as int].from@ == ms[i as int].to@);
                }
            }
            return Some(m.name.clone());
        }
        i = i + 1;
    }
    None
}

pub open spec fn dist_keyed(ds: Seq<DistributionInfo>, k: Seq<char>) -> bool {
    exists|i: int| 0 <= i < ds.len() && ds[i].key@ == k
}

/// The distribution in effect: the requested one when the tool has it, else
/// the declared default, else the first; none when there are none.
pub open spec fn effective_dist(
    ds: Seq<DistributionInfo>,
    default: Option<Seq<char>>,
    requested: Option<Seq<char>>,
) -> Option<Seq<char>> {
    if ds.len() == 0 {
        None
    } else if requested is Some && dist_keyed(ds, requested->0) {
        requested
    } else if default is Some {
        default
    } else {
        Some(ds[0].key@)
    }
}

/// The distribution in effect for a request.
pub fn effective_distribution(
    distributions: &[DistributionInfo],
    default_distribution: Option<&str>,
    requested: Option<&str>,
) -> (r: Option<String>)
    ensures
        match r {
            Some(d) => effective_dist(distributions@, opt_seq(default_distribution), opt_seq(requested))
                == Some(d@),
            None => effective_dist(
                distributions@,
                opt_seq(default_distribution),
                opt_seq(requested),
            ) is None,
        },
{
    if distributions.len() == 0 {
        return None;
    }
    match requested {
        Some(k) => {
            let kc = chars_of(k);
            let mut i: usize = 0;
            while i < distributions.len()
                invariant
                    i <= distributions.len(),
                    distributions@.len() > 0,
                    requested == Some(k),
                    kc@ == k@,
                    forall|j: int| 0 <= j < i ==> distributions@[j].key@ != k@,
                decreases distributions.len() - i,
            {
                if eq(&chars_of_string(&distributions[i].key), &kc) {
                    assert(distributions@[i as int].key@ == k@);
                    return Some(to_string(&kc));
                }
                i = i + 1;
            }
        },
        None => {},
    }
    match default_distribution {
        Some(d) => Some(to_string(&chars_of(d))),
        None => Some(distributions[0].key.clone()),
    }
}

/// The version-cache key: the tool, or `<tool>-<distribution>`.
pub open spec fn cache_key_of(tool: Seq<char>, dist: Option<Seq<char>>) -> Seq<char> {
    match dist {
        Some(d) => if d.len() > 0 {
            tool + "-"@ + d
        } else {
            tool
        },
        None => tool,
    }
}

/// Keeps version lists of different distributions apart.
pub fn cache_key(tool: &str, distribution: Option<&str>) -> (r: String)
    ensures
        r@ == cache_key_of(tool@, opt_seq(distribution)),
{
    let mut k: Vec<char> = chars_of(tool);
    match distribution {
        Some(d) => {
            if !d.is_empty() {
                append_str(&mut k, "-");
                append_str(&mut k, d);
            }
        },
        None => {},
    }
    to_string(&k)
}

/// A tool is active when a version is configured and installed; `installed`
/// tells whether the configured version's directory exists.
pub fn is_active(configured: Option<&str>, installed: bool) -> (r: bool)
    ensures
        r == (configured is Some && installed),
{
    match configured {
        Some(_) => installed,
        None => false,
    }
}

/// The environment a tool contributes in a scope: when the scope is active,
/// its `bin` directory first in PATH and each root-directory variable set to
/// the current link.
pub fn env_keys(desc: &ToolDesc, bin_dir: &str, current_link: &str, scope_active: bool) -> (r: Envs)
    ensures
        !scope_active ==> r.vars.pairs().len() == 0 && r.paths@.len() == 0,
        scope_active ==> r.paths@.len() == 1 && r.paths@[0]@ == bin_dir@,
        scope_active ==> forall|i: int|
            0 <= i < desc.env_vars@.len() ==> crate::strmap::lookup(
                r.vars.pairs(),
                #[trigger] desc.env_vars@[i].0@,
            ) == Some(Some(current_link@)),
        forall|k: Seq<char>|
            #[trigger] crate::strmap::lookup(r.vars.pairs(), k) is Some ==> exists|i: int|
                0 <= i < desc.env_vars@.len() && desc.env_vars@[i].0@ == k,
{
    let mut envs = Envs::new();
    if scope_active {
        let ghost st = envs.style;
        assert(crate::env::strs(envs.paths@) =~= Seq::<Seq<char>>::empty());
        assert(!crate::env::has_equiv(st, Seq::<Seq<char>>::empty(), bin_dir@));
        envs.prepend_path(bin_dir);
        assert(crate::env::strs(envs.paths@) =~= seq![bin_dir@]);
        assert(crate::env::strs(envs.paths@)[0] == envs.paths@[0]@);
        let mut i: usize = 0;
        while i < desc.env_vars.len()
            invariant
                i <= desc.env_vars.len(),
                envs.paths@.len() == 1 && envs.paths@[0]@ == bin_dir@,
                crate::strmap::distinct_keys(envs.vars.pairs()),
                forall|j: int|
                    0 <= j < i ==> crate::strmap::lookup(
                        envs.vars.pairs(),
                        #[trigger] desc.env_vars@[j].0@,
                    ) == Some(Some(current_link@)),
                forall|k: Seq<char>|
                    #[trigger] crate::strmap::lookup(envs.vars.pairs(), k) is Some ==> exists|j: int|
                        0 <= j < i && desc.env_vars@[j].0@ == k,
            decreases desc.env_vars.len() - i,
        {
            let ghost e0 = envs.vars.pairs();
            let k = &desc.env_vars[i].0;
            match desc.env_vars[i].1 {
                EnvVarKind::RootDir => {
                    envs.var(k.as_str(), current_link);
                },
            }
            let _ = envs.vars.len();
            assert forall|q: Seq<char>| #[trigger]
                crate::strmap::lookup(envs.vars.pairs(), q) == (if q == k@ {
                    Some(Some(current_link@))
                } else {
                    crate::strmap::lookup(e0, q)
                }) by {
                crate::strmap::lemma_lookup_inserted(e0, k@, Some(current_link@), q);
            }
            assert forall|j: int| 0 <= j < i + 1 implies crate::strmap::lookup(
                envs.vars.pairs(),
                #[trigger] desc.env_vars@[j].0@,
            ) == Some(Some(current_link@)) by {
                let q = desc.env_vars@[j].0@;
                assert(crate::strmap::lookup(envs.vars.pairs(), q) == (if q == k@ {
                    Some(Some(current_link@))
                } else {
                    crate::strmap::lookup(e0, q)
                }));
            }
            assert forall|q: Seq<char>| #[trigger]
                crate::strmap::lookup(envs.vars.pairs(), q) is Some implies exists|j: int|
                    0 <= j < i + 1 && desc.env_vars@[j].0@ == q by {
                if q == k@ {
                    assert(desc.env_vars@[i as int].0@ == q);
                } else {
                    assert(crate::strmap::lookup(e0, q) is Some);
                }
            }
            i = i + 1;
        }
    }
    envs
}

/// The version a current link points at, from the name of its target
/// directory (`v-<version>`).
pub open spec fn linked_version(dir_name: Seq<char>) -> Option<Seq<char>> {
    if starts_with(dir_name, "v-"@) {
        Some(dir_name.skip(2))
    } else {
        None
    }
}

/// The directory of an installed version (`Version::dir_name`) names that
/// version again when a current link points at it.
pub proof fn lemma_dir_name_reads_back(v: Seq<char>)
    ensures
        linked_version("v-"@ + v) == Some(v),
{
    reveal_strlit("v-");
    let d = "v-"@ + v;
    assert(d.take(2) =~= "v-"@);
    assert(d.skip(2) =~= v);
}

pub fn current_version_of(dir_name: &str) -> (r: Option<Version>)
    ensures
        match r {
            Some(v) => linked_version(dir_name@) == Some(v.0@),
            None => linked_version(dir_name@) is None,
        },
{
    let n = chars_of(dir_name);
    let pre = vec!['v', '-'];
    proof {
        reveal_strlit("v-");
    }
    assert(pre@ =~= "v-"@);
    if starts_with_v(&n, &pre) {
        let rest = slice_of(&n, 2, n.len());
        assert(rest@ =~= n@.skip(2));
        Some(Version::new(to_string(&rest)))
    } else {
        None
    }
}

/// A tool as shown on its card.
pub struct ToolInfo {
    pub name: String,
    pub display: String,
    pub category: String,
    pub homepage: String,
    pub current: Option<String>,
    pub installed: Vec<String>,
    pub available: Option<Vec<String>>,
    pub bin_path: Option<String>,
    pub distributions: Option<Vec<DistributionInfo>>,
    pub default_distribution: Option<String>,
    pub mirrors: Option<Vec<MirrorCandidate>>,
    pub default_mirror: Option<String>,
    pub icon: Option<String>,
}

/// What the file system says of a tool: its installed versions, the version
/// the configuration selects, whether that version's directory exists and
/// the current link resolves, the cached version list, the `bin` directory
/// under the current link, and the icon found.
pub struct ToolFacts {
    pub installed: Vec<String>,
    pub configured: Option<String>,
    pub version_dir_exists: bool,
    pub link_resolves: bool,
    pub available: Option<Vec<String>>,
    pub bin_dir: String,
    pub icon: Option<String>,
}

pub open spec fn opt_string(o: Option<String>) -> Option<Seq<char>> {
    match o {
        Some(s) => Some(s@),
        None => None,
    }
}

/// What a distribution holds.
pub open spec fn dist_view(d: DistributionInfo) -> (Seq<char>, Seq<char>) {
    (d.key@, d.display@)
}

pub open spec fn dist_views(ds: Seq<DistributionInfo>) -> Seq<(Seq<char>, Seq<char>)> {
    ds.map_values(|d: DistributionInfo| dist_view(d))
}

/// What a mirror candidate holds.
pub open spec fn mirror_view(m: MirrorCandidate) -> (Seq<char>, Seq<char>, Seq<char>) {
    (m.name@, m.from@, m.to@)
}

pub open spec fn mirror_views(ms: Seq<MirrorCandidate>) -> Seq<(Seq<char>, Seq<char>, Seq<char>)> {
    ms.map_values(|m: MirrorCandidate| mirror_view(m))
}

fn copy_distributions(ds: &Vec<DistributionInfo>) -> (r: Vec<DistributionInfo>)
    ensures
        dist_views(r@) == dist_views(ds@),
{
    let mut r: Vec<DistributionInfo> = Vec::new();
    let mut i: usize = 0;
    while i < ds.len()
        invariant
            i <= ds.len(),
            dist_views(r@) == dist_views(ds@).take(i as int),
        decreases ds.len() - i,
    {
        let ghost before = dist_views(r@);
        r.push(DistributionInfo { key: ds[i].key.clone(), display: ds[i].display.clone() });
        assert(dist_views(r@) =~= before.push(dist_view(ds@[i as int])));
        assert(dist_views(ds@).take(i + 1) =~= dist_views(ds@).take(i as int).push(dist_view(ds@[i as int])));
        i = i + 1;
    }
    assert(dist_views(ds@).take(ds.len() as int) =~= dist_views(ds@));
    r
}

fn copy_mirrors(ms: &Vec<MirrorCandidate>) -> (r: Vec<MirrorCandidate>)
    ensures
        mirror_views(r@) == mirror_views(ms@),
{
    let mut r: Vec<MirrorCandidate> = Vec::new();
    let mut i: usize = 0;
    while i < ms.len()
        invariant
            i <= ms.len(),
            mirror_views(r@) == mirror_views(ms@).take(i as int),
        decreases ms.len() - i,
    {
        let ghost before = mirror_views(r@);
        r.push(MirrorCandidate { name: ms[i].name.clone(), from: ms[i].from.clone(), to: ms[i].to.clone() });
        assert(mirror_views(r@) =~= before.push(mirror_view(ms@[i as int])));
        assert(mirror_views(ms@).take(i + 1) =~= mirror_views(ms@).take(i as int).push(mirror_view(ms@[i as int])));
        i = i + 1;
    }
    assert(mirror_views(ms@).take(ms.len() as int) =~= mirror_views(ms@));
    r
}

fn clone_opt(o: &Option<String>) -> (r: Option<String>)
    ensures
        opt_string(r) == opt_string(*o),
{
    match o {
        Some(s) => Some(s.clone()),
        None => None,
    }
}

impl ToolInfo {
    /// The card of a tool: the configured version counts as current only
    /// when it is installed and the current link resolves (an empty directory
    /// left by a failed link does not count); the `bin` path is shown only
    /// for a current version; empty distribution or mirror lists are left out.
    pub fn from_desc(desc: &ToolDesc, facts: ToolFacts) -> (r: ToolInfo)
        ensures
            r.name@ == desc.name@,
            r.display@ == desc.display@,
            r.category@ == desc.category@,
            r.homepage@ == desc.homepage@,
            opt_string(r.current) == (if facts.version_dir_exists && facts.link_resolves {
                opt_string(facts.configured)
            } else {
                None
            }),
            r.installed@ == facts.installed@,
            r.available == facts.available,
            opt_string(r.bin_path) == (if r.current is Some {
                Some(facts.bin_dir@)
            } else {
                None
            }),
            desc.distributions@.len() == 0 <==> r.distributions is None,
            r.distributions matches Some(d) ==> dist_views(d@) == dist_views(desc.distributions@),
            opt_string(r.default_distribution) == opt_string(desc.default_distribution),
            desc.mirrors@.len() == 0 <==> r.mirrors is None,
            r.mirrors matches Some(m) ==> mirror_views(m@) == mirror_views(desc.mirrors@),
            opt_string(r.default_mirror) == opt_string(desc.default_mirror),
            r.icon == facts.icon,
    {
        let current = if facts.version_dir_exists && facts.link_resolves {
            facts.configured
        } else {
            None
        };
        let bin_path = match current {
            Some(_) => Some(facts.bin_dir),
            None => None,
        };
        let distributions = if desc.distributions.len() == 0 {
            None
        } else {
            Some(copy_distributions(&desc.distributions))
        };
        let mirrors = if desc.mirrors.len() == 0 {
            None
        } else {
            Some(copy_mirrors(&desc.mirrors))
        };
        ToolInfo {
            name: desc.name.clone(),
            display: desc.display.clone(),
            category: desc.category.clone(),
            homepage: desc.homepage.clone(),
            current,
            installed: facts.installed,
            available: facts.available,
            bin_path,
            distributions,
            default_distribution: clone_opt(&desc.default_distribution),
            mirrors,
            default_mirror: clone_opt(&desc.default_mirror),
            icon: facts.icon,
        }
    }
}

/// An installed version, as listed on the home page.
pub struct InstalledInfo {
    pub tool: String,
    pub display: String,
    pub version: String,
    pub path: String,
    pub is_current: bool,
}

/// The outcome of switching versions.
pub struct SwitchResult {
    pub tool: String,
    pub version: String,
    pub bin_path: String,
    pub message: String,
}

/// The outcome of an installation.
pub struct InstallResult {
    pub tool: String,
    pub version: String,
    pub path: String,
    pub message: String,
}

pub open spec fn installed_view(i: InstalledInfo) -> (Seq<char>, Seq<char>, Seq<char>, Seq<char>, bool) {
    (i.tool@, i.display@, i.version@, i.path@, i.is_current)
}

pub open spec fn display_version_le() -> spec_fn(
    (Seq<char>, Seq<char>, Seq<char>, Seq<char>, bool),
    (Seq<char>, Seq<char>, Seq<char>, Seq<char>, bool),
) -> bool {
    |a: (Seq<char>, Seq<char>, Seq<char>, Seq<char>, bool), b: (Seq<char>, Seq<char>, Seq<char>, Seq<char>, bool)|
        pair_le(a.1, a.2, b.1, b.2)
}

/// Installed versions as listed: by display name, then by version text.
pub fn sort_installed(list: &[InstalledInfo]) -> (r: Vec<InstalledInfo>)
    ensures
        crate::sort::stably_sorted(
            display_version_le(),
            list@.map_values(|i: InstalledInfo| installed_view(i)),
            list@.map_values(|i: InstalledInfo| installed_view(i)),
            r@.map_values(|i: InstalledInfo| installed_view(i)),
        ),
{
    let ghost lv = list@.map_values(|i: InstalledInfo| installed_view(i));
    let mut keys: Vec<TextPairKey> = Vec::new();
    let mut i: usize = 0;
    while i < list.len()
        invariant
            i <= list.len(),
            lv == list@.map_values(|i: InstalledInfo| installed_view(i)),
            keys@.len() == i,
            forall|j: int|
                0 <= j < i ==> (#[trigger] keys@[j]).0@ == lv[j].1 && keys@[j].1@ == lv[j].2,
        decreases list.len() - i,
    {
        keys.push(TextPairKey(chars_of_string(&list[i].display), chars_of_string(&list[i].version)));
        i = i + 1;
    }
    let p = stable_order(&keys);
    let mut out: Vec<InstalledInfo> = Vec::new();
    let mut j: usize = 0;
    while j < p.len()
        invariant
            j <= p.len(),
            is_perm(p@, list@.len()),
            lv == list@.map_values(|i: InstalledInfo| installed_view(i)),
            out@.len() == j,
            forall|m: int| 0 <= m < j ==> installed_view(#[trigger] out@[m]) == lv[p@[m] as int],
        decreases p.len() - j,
    {
        let e = &list[p[j]];
        out.push(InstalledInfo {
            tool: e.tool.clone(),
            display: e.display.clone(),
            version: e.version.clone(),
            path: e.path.clone(),
            is_current: e.is_current,
        });
        j = j + 1;
    }
    proof {
        lemma_sorted_transfer(keys@, lv, display_version_le(), p@);
        let ov = out@.map_values(|i: InstalledInfo| installed_view(i));
        assert(forall|m: int| 0 <= m < ov.len() ==> ov[m] == lv[#[trigger] p@[m] as int]);
    }
    out
}

/// An installed version is current when the tool is active with it.
pub fn is_current_version(active: bool, configured: Option<&str>, version: &str) -> (r: bool)
    ensures
        r == (active && (configured matches Some(c) && c@ == version@)),
{
    match configured {
        Some(c) => active && eq(&chars_of(c), &chars_of(version)),
        None => false,
    }
}

pub open spec fn not_installed_message(display: Seq<char>, version: Seq<char>) -> Seq<char> {
    display + " "@ + version + " 尚未安装，请先安装再切换"@
}

/// Switching needs the version installed.
pub fn switch_check(display: &str, version: &str, installed: bool) -> (r: Result<(), EnvHiveError>)
    ensures
        installed ==> r is Ok,
        !installed ==> (r matches Err(e) && e.kind == EnvHiveErrorKind::NotInstalled && e.message@
            == not_installed_message(display@, version@)),
{
    if installed {
        return Ok(());
    }
    let mut m: Vec<char> = chars_of(display);
    append_str(&mut m, " ");
    append_str(&mut m, version);
    append_str(&mut m, " 尚未安装，请先安装再切换");
    Err(EnvHiveError::new(EnvHiveErrorKind::NotInstalled, to_string(&m)))
}

/// The outcome of a successful switch.
pub fn switch_result(tool: String, version: String, bin_path: String) -> (r: SwitchResult)
    ensures
        r.tool@ == tool@,
        r.version@ == version@,
        r.bin_path@ == bin_path@,
        r.message@ == "切换成功，新终端中生效"@,
{
    SwitchResult { tool, version, bin_path, message: to_string(&chars_of("切换成功，新终端中生效")) }
}

// ---------------------------------------------------------------------------
// Looking up tools and fetching their versions
// ---------------------------------------------------------------------------

/// Tools are looked up by their ASCII-lower-case name.
pub fn tool_key(name: &str) -> (r: String)
    ensures
        r@ == crate::text::lower(name@),
{
    to_string(&crate::text::to_lower(&chars_of(name)))
}

pub open spec fn unknown_tool_message(name: Seq<char>) -> Seq<char> {
    "工具 "@ + name + " 未注册（可在「插件」页添加 Lua 插件）"@
}

/// The error for a tool no plugin provides.
pub fn tool_not_found(name: &str) -> (e: EnvHiveError)
    ensures
        e.kind == EnvHiveErrorKind::ToolNotFound,
        e.message@ == unknown_tool_message(name@),
        e.source is None,
{
    let mut m = chars_of("工具 ");
    append_str(&mut m, name);
    append_str(&mut m, " 未注册（可在「插件」页添加 Lua 插件）");
    EnvHiveError::new(EnvHiveErrorKind::ToolNotFound, to_string(&m))
}

/// Whether a cached version list (fetched at `fetched_at`, if there is one)
/// answers a request: not when a refresh is asked for, nor once it has
/// expired. The memory cache is asked first, then the file cache, then the
/// network.
pub fn cache_usable(refresh: bool, fetched_at: Option<i64>, ttl: i64, now: i64) -> (r: bool)
    ensures
        r == (!refresh && (fetched_at matches Some(f) && !(ttl >= 0 && (ttl == 0 || now - f >= ttl)))),
{
    if refresh {
        return false;
    }
    match fetched_at {
        Some(f) => !crate::usage::is_expired(f, ttl, now),
        None => false,
    }
}

/// Where a version list comes from.
#[derive(Debug, Clone, Copy, PartialEq, Eq, Structural)]
pub enum VersionsSource {
    /// The list kept in memory.
    Memory,
    /// The list in the cache file (which is then kept in memory too).
    File,
    /// The network.
    Fetch,
}

pub open spec fn fresh(fetched_at: Option<i64>, ttl: i64, now: i64) -> bool {
    fetched_at matches Some(f) && !(ttl >= 0 && (ttl == 0 || now - f >= ttl))
}

/// Where to take a tool's version list from: the memory cache when it is
/// fresh, else the cache file when it is fresh (`file_fetched_at` is none
/// when the file is missing or unreadable), else the network; a refresh
/// always goes to the network.
pub fn versions_source(
    refresh: bool,
    memory_fetched_at: Option<i64>,
    file_fetched_at: Option<i64>,
    ttl: i64,
    now: i64,
) -> (r: VersionsSource)
    ensures
        r == (if refresh {
            VersionsSource::Fetch
        } else if fresh(memory_fetched_at, ttl, now) {
            VersionsSource::Memory
        } else if fresh(file_fetched_at, ttl, now) {
            VersionsSource::File
        } else {
            VersionsSource::Fetch
        }),
{
    if cache_usable(refresh, memory_fetched_at, ttl, now) {
        VersionsSource::Memory
    } else if cache_usable(refresh, file_fetched_at, ttl, now) {
        VersionsSource::File
    } else {
        VersionsSource::Fetch
    }
}

pub open spec fn empty_list_message(display: Seq<char>) -> Seq<char> {
    display + " 版本列表为空（检查网络或镜像源）"@
}

/// A fetched version list must not be empty.
pub fn check_fetched(display: &str, count: usize) -> (r: Result<(), EnvHiveError>)
    ensures
        count > 0 ==> r is Ok,
        count == 0 ==> (r matches Err(e) && e.kind == EnvHiveErrorKind::Network && e.message@
            == empty_list_message(display@)),
{
    if count > 0 {
        return Ok(());
    }
    let mut m = chars_of(display);
    append_str(&mut m, " 版本列表为空（检查网络或镜像源）");
    Err(EnvHiveError::new(EnvHiveErrorKind::Network, to_string(&m)))
}

/// The last progress stage announced when an installation ends: done on
/// success, failed on an error; nothing when the user cancelled (the
/// screen treats that as a cancellation, not a failure).
pub fn final_stage(error: Option<EnvHiveErrorKind>) -> (r: Option<crate::cli::DownloadStage>)
    ensures
        error is None ==> r == Some(crate::cli::DownloadStage::Done),
        error matches Some(k) && k == EnvHiveErrorKind::Cancelled ==> r is None,
        error matches Some(k) && k != EnvHiveErrorKind::Cancelled ==> r == Some(
            crate::cli::DownloadStage::Failed,
        ),
{
    match error {
        None => Some(crate::cli::DownloadStage::Done),
        Some(k) => if k == EnvHiveErrorKind::Cancelled {
            None
        } else {
            Some(crate::cli::DownloadStage::Failed)
        },
    }
}

pub open spec fn unregistered_message(name: Seq<char>) -> Seq<char> {
    "工具 "@ + name + " 未注册"@
}

/// The card of the tool named `name` (ASCII case ignored): the first
/// listed tool with that lower-case name.
pub fn find_tool(list: Vec<ToolInfo>, name: &str) -> (r: Result<ToolInfo, EnvHiveError>)
    ensures
        match r {
            Ok(t) => exists|k: int|
                0 <= k < list@.len() && t == list@[k] && list@[k].name@ == crate::text::lower(name@)
                    && forall|j: int| 0 <= j < k ==> list@[j].name@ != crate::text::lower(name@),
            Err(e) => {
                &&& forall|k: int| 0 <= k < list@.len() ==> list@[k].name@ != crate::text::lower(name@)
                &&& e.kind == EnvHiveErrorKind::ToolNotFound
                &&& e.message@ == unregistered_message(name@)
            },
        },
{
    let key = tool_key(name);
    let kc = chars_of_string(&key);
    let mut tools = list;
    let ghost all = tools@;
    assert(all == list@);
    let mut i: usize = 0;
    while i < tools.len()
        invariant
            i <= tools.len(),
            tools@ == all,
            all == list@,
            kc@ == crate::text::lower(name@),
            forall|j: int| 0 <= j < i ==> all[j].name@ != kc@,
        decreases tools.len() - i,
    {
        if eq(&chars_of_string(&tools[i].name), &kc) {
            let t = tools.remove(i);
            assert(t == all[i as int] && all[i as int].name@ == crate::text::lower(name@));
            return Ok(t);
        }
        i = i + 1;
    }
    let mut m = chars_of("工具 ");
    append_str(&mut m, name);
    append_str(&mut m, " 未注册");
    Err(EnvHiveError::new(EnvHiveErrorKind::ToolNotFound, to_string(&m)))
}

/// A plugin's declared variables with `{root}` replaced by the current link.
pub open spec fn rooted(vars: Seq<(String, String)>, root: Seq<char>) -> Seq<
    (Seq<char>, Option<Seq<char>>),
> {
    vars.map_values(
        |p: (String, String)| (p.0@, Some(crate::text::replace_all(p.1@, "{root}"@, root))),
    )
}

/// The environment a plugin's tool contributes in a scope: nothing when
/// the scope is inactive; else what the plugin's environment hook gave,
/// with the tool's `bin` directory first in PATH and each declared variable
/// set, `{root}` in its value replaced by the current link.
pub fn plugin_env_keys(
    scope_active: bool,
    hook_envs: Envs,
    bin_dir: &str,
    root: &str,
    env_vars: &[(String, String)],
) -> (r: Envs)
    ensures
        !scope_active ==> r.vars.pairs().len() == 0 && r.paths@.len() == 0,
        scope_active ==> crate::env::strs(r.paths@) == crate::env::prepended(
            hook_envs.style,
            crate::env::strs(hook_envs.paths@),
            bin_dir@,
        ),
        scope_active ==> r.vars.pairs() == crate::env::set_all(
            hook_envs.vars.pairs(),
            rooted(env_vars@, root@),
        ),
{
    if !scope_active {
        return Envs::new();
    }
    let mut envs = hook_envs;
    let ghost e0 = envs.vars.pairs();
    envs.prepend_path(bin_dir);
    let ghost paths = envs.paths;
    proof {
        reveal_strlit("{root}");
    }
    let mut i: usize = 0;
    assert(rooted(env_vars@, root@).take(0) =~= Seq::<(Seq<char>, Option<Seq<char>>)>::empty());
    while i < env_vars.len()
        invariant
            i <= env_vars.len(),
            envs.paths == paths,
            envs.vars.pairs() == crate::env::set_all(e0, rooted(env_vars@, root@).take(i as int)),
            "{root}"@.len() > 0,
        decreases env_vars.len() - i,
    {
        let (k, v) = (&env_vars[i].0, &env_vars[i].1);
        let value = crate::text::replace(v.as_str(), "{root}", root);
        envs.var(k.as_str(), value.as_str());
        let ghost o = rooted(env_vars@, root@);
        assert(o.take(i + 1).drop_last() =~= o.take(i as int));
        assert(o.take(i + 1).last() == o[i as int]);
        i = i + 1;
    }
    assert(rooted(env_vars@, root@).take(env_vars.len() as int) =~= rooted(env_vars@, root@));
    envs
}

/// The part joined to the current link to reach a tool's `bin` directory:
/// nothing when the tool declares no suffix (the link itself), else the
/// suffix without its leading `/`.
pub fn bin_subdir(suffix: &str) -> (r: Option<String>)
    ensures
        suffix@.len() == 0 ==> r is None,
        suffix@.len() > 0 ==> (r matches Some(t) && t@ == crate::text::strip_lead(suffix@, '/')),
{
    let c = chars_of(suffix);
    if c.len() == 0 {
        None
    } else {
        Some(to_string(&crate::text::strip_lead_v(&c, '/')))
    }
}

pub open spec fn missing_version_message(name: Seq<char>, version: Seq<char>) -> Seq<char> {
    name + " "@ + version + " 未安装"@
}

/// The current link is only pointed at a version directory that exists.
pub fn link_target_check(name: &str, version: &str, exists: bool) -> (r: Result<(), EnvHiveError>)
    ensures
        exists ==> r is Ok,
        !exists ==> (r matches Err(e) && e.kind == EnvHiveErrorKind::NotInstalled && e.message@
            == missing_version_message(name@, version@)),
{
    if exists {
        return Ok(());
    }
    let mut m = chars_of(name);
    append_str(&mut m, " ");
    append_str(&mut m, version);
    append_str(&mut m, " 未安装");
    Err(EnvHiveError::new(EnvHiveErrorKind::NotInstalled, to_string(&m)))
}

} // verus!
