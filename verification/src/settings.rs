//! The settings page: the version-cache TTL, the plugin repositories and
//! the tool storage path. Only the fields given change; the caller saves
//! the configuration when something changed.

use vstd::prelude::*;

use crate::error::{EnvHiveError, EnvHiveErrorKind};
use crate::term::i64_literal;
use crate::text::{
    append, append_str, chars_of, chars_of_string, debug_quote, debug_str, eq, slice_of,
    starts_with, starts_with_v, strip_trail, strip_trail_v, to_string, trim, trim_v,
};

verus! {

/// A plugin repository: a name and the full address of its JSON index.
#[derive(Debug, Clone)]
pub struct RegistryEntry {
    pub name: String,
    pub url: String,
}

/// A repository as stored: named, or a bare address (older configurations).
#[derive(Debug, Clone)]
pub enum RegistryAddress {
    Named(RegistryEntry),
    Plain(String),
}

/// The fields of the global configuration the settings page edits.
pub struct Settings {
    /// The version-cache TTL (`available_hook_duration`).
    pub cache_ttl: String,
    pub registry_addresses: Vec<RegistryAddress>,
    /// The single address of older configurations.
    pub registry_address: Option<String>,
    /// The repository last selected in the plugin market.
    pub registry_selected: Option<String>,
    /// Where tools are installed.
    pub tool_path: String,
}

pub open spec fn entry_view(e: RegistryEntry) -> (Seq<char>, Seq<char>) {
    (e.name@, e.url@)
}

/// A stored repository: whether it is named, its name, its address.
pub open spec fn address_view(a: RegistryAddress) -> (bool, Seq<char>, Seq<char>) {
    match a {
        RegistryAddress::Named(e) => (true, e.name@, e.url@),
        RegistryAddress::Plain(u) => (false, Seq::empty(), u@),
    }
}

pub open spec fn addresses_view(v: Seq<RegistryAddress>) -> Seq<(bool, Seq<char>, Seq<char>)> {
    v.map_values(|a: RegistryAddress| address_view(a))
}

/// An address as kept: trimmed, without trailing `/`.
pub open spec fn clean_url(u: Seq<char>) -> Seq<char> {
    strip_trail(trim(u), '/')
}

pub open spec fn http_url(u: Seq<char>) -> bool {
    starts_with(u, "https://"@) || starts_with(u, "http://"@)
}

pub open spec fn url_listed(es: Seq<(Seq<char>, Seq<char>)>, u: Seq<char>) -> bool {
    exists|i: int| 0 <= i < es.len() && es[i].1 == u
}

/// The repositories as kept: blank addresses dropped, each address once
/// (the first entry wins); an address that is not http(s) or an entry
/// without a name is an error.
pub open spec fn cleaned_entries(es: Seq<(Seq<char>, Seq<char>)>) -> Result<
    Seq<(Seq<char>, Seq<char>)>,
    Seq<char>,
>
    decreases es.len(),
{
    if es.len() == 0 {
        Ok(Seq::empty())
    } else {
        match cleaned_entries(es.drop_last()) {
            Err(m) => Err(m),
            Ok(acc) => {
                let url = clean_url(es.last().1);
                let name = trim(es.last().0);
                if url.len() == 0 {
                    Ok(acc)
                } else if !http_url(url) {
                    Err("插件仓库地址需以 http:// 或 https:// 开头"@)
                } else if name.len() == 0 {
                    Err("插件仓库名不能为空（如「官方gitee」「官方github」）"@)
                } else if url_listed(acc, url) {
                    Ok(acc)
                } else {
                    Ok(acc.push((name, url)))
                }
            },
        }
    }
}

/// The number part of a TTL entry: all but its last character.
pub open spec fn ttl_number(t: Seq<char>) -> Seq<char> {
    if t.len() == 0 {
        t
    } else {
        t.drop_last()
    }
}

/// A TTL the settings page accepts: `-1`, `0`, or anything whose part
/// before the last character is a number.
pub open spec fn ttl_accepted(t: Seq<char>) -> bool {
    t == "-1"@ || t == "0"@ || i64_literal(ttl_number(t)) is Some
}

/// The last character would be cut in two when split off.
pub open spec fn ttl_cut_char(t: Seq<char>) -> bool {
    t != "-1"@ && t != "0"@ && t.len() > 0 && (t.last() as u32) >= 0x80
}

pub open spec fn ttl_message(t: Seq<char>) -> Seq<char> {
    "非法缓存 TTL: "@ + debug_str(t) + "（示例: 12h / 3600 / -1 / 0）"@
}

pub open spec fn named_views(es: Seq<(Seq<char>, Seq<char>)>) -> Seq<(bool, Seq<char>, Seq<char>)> {
    es.map_values(|e: (Seq<char>, Seq<char>)| (true, e.0, e.1))
}

pub open spec fn selected_listed(v: Seq<(bool, Seq<char>, Seq<char>)>, sel: Seq<char>) -> bool {
    exists|i: int| 0 <= i < v.len() && v[i].2 == sel
}

pub open spec fn opt_string(o: Option<String>) -> Option<Seq<char>> {
    match o {
        Some(s) => Some(s@),
        None => None,
    }
}

fn ttl_ok(t: &Vec<char>) -> (r: bool)
    requires
        !ttl_cut_char(t@),
    ensures
        r == ttl_accepted(t@),
{
    if eq(t, &chars_of("-1")) || eq(t, &chars_of("0")) {
        return true;
    }
    let num = if t.len() == 0 {
        slice_of(t, 0, 0)
    } else {
        slice_of(t, 0, t.len() - 1)
    };
    assert(num@ =~= ttl_number(t@));
    crate::term::parse_i64_v(&num).is_some()
}

/// Cleans the repository list.
fn clean_entries(entries: &Vec<RegistryEntry>) -> (r: Result<Vec<RegistryEntry>, EnvHiveError>)
    ensures
        match r {
            Ok(v) => cleaned_entries(entries@.map_values(|e: RegistryEntry| entry_view(e))) == Ok::<
                Seq<(Seq<char>, Seq<char>)>,
                Seq<char>,
            >(v@.map_values(|e: RegistryEntry| entry_view(e))),
            Err(e) => e.kind == EnvHiveErrorKind::Config && cleaned_entries(
                entries@.map_values(|e: RegistryEntry| entry_view(e)),
            ) == Err::<Seq<(Seq<char>, Seq<char>)>, Seq<char>>(e.message@),
        },
{
    let ghost es = entries@.map_values(|e: RegistryEntry| entry_view(e));
    let mut out: Vec<RegistryEntry> = Vec::new();
    let mut i: usize = 0;
    assert(es.take(0) =~= Seq::<(Seq<char>, Seq<char>)>::empty());
    assert(out@.map_values(|e: RegistryEntry| entry_view(e)) =~= Seq::<(Seq<char>, Seq<char>)>::empty());
    while i < entries.len()
        invariant
            i <= entries.len(),
            es == entries@.map_values(|e: RegistryEntry| entry_view(e)),
            cleaned_entries(es.take(i as int)) == Ok::<Seq<(Seq<char>, Seq<char>)>, Seq<char>>(
                out@.map_values(|e: RegistryEntry| entry_view(e)),
            ),
        decreases entries.len() - i,
    {
        let raw = &entries[i];
        assert(es.take(i + 1).drop_last() =~= es.take(i as int));
        assert(es.take(i + 1).last() == entry_view(*raw));
        let url = strip_trail_v(&trim_v(&chars_of_string(&raw.url)), '/');
        if url.len() > 0 {
            if !(starts_with_v(&url, &chars_of("https://")) || starts_with_v(&url, &chars_of("http://"))) {
                proof {
                    lemma_clean_err_stays(es, i as int + 1);
                }
                return Err(EnvHiveError::new(
                    EnvHiveErrorKind::Config,
                    to_string(&chars_of("插件仓库地址需以 http:// 或 https:// 开头")),
                ));
            }
            let name = trim_v(&chars_of_string(&raw.name));
            if name.len() == 0 {
                proof {
                    lemma_clean_err_stays(es, i as int + 1);
                }
                return Err(EnvHiveError::new(
                    EnvHiveErrorKind::Config,
                    to_string(&chars_of("插件仓库名不能为空（如「官方gitee」「官方github」）")),
                ));
            }
            let ghost acc = out@.map_values(|e: RegistryEntry| entry_view(e));
            let mut seen = false;
            let mut k: usize = 0;
            while k < out.len()
                invariant
                    k <= out.len(),
                    acc == out@.map_values(|e: RegistryEntry| entry_view(e)),
                    seen == exists|m: int| 0 <= m < k && acc[m].1 == url@,
                decreases out.len() - k,
            {
                if eq(&chars_of_string(&out[k].url), &url) {
                    seen = true;
                }
                proof {
                    assert(acc[k as int] == entry_view(out@[k as int]));
                    if !seen {
                        assert forall|m: int| 0 <= m < k + 1 implies acc[m].1 != url@ by {
                            if m == k {
                            }
                        }
                    } else if exists|m: int| 0 <= m < k && acc[m].1 == url@ {
                        let w = choose|m: int| 0 <= m < k && acc[m].1 == url@;
                        assert(0 <= w < k + 1 && acc[w].1 == url@);
                    } else {
                        assert(acc[k as int].1 == url@);
                    }
                }
                k = k + 1;
            }
            if !seen {
                out.push(RegistryEntry { name: to_string(&name), url: to_string(&url) });
                assert(out@.map_values(|e: RegistryEntry| entry_view(e)) =~= acc.push((name@, url@)));
            }
        }
        i = i + 1;
    }
    assert(es.take(entries.len() as int) =~= es);
    Ok(out)
}

proof fn lemma_clean_err_stays(es: Seq<(Seq<char>, Seq<char>)>, n: int)
    requires
        0 <= n <= es.len(),
        cleaned_entries(es.take(n)) is Err,
    ensures
        cleaned_entries(es) == cleaned_entries(es.take(n)),
    decreases es.len() - n,
{
    if n < es.len() {
        assert(es.take(n + 1).drop_last() =~= es.take(n));
        lemma_clean_err_stays(es, n + 1);
    } else {
        assert(es.take(n) =~= es);
    }
}

fn same_addresses(a: &Vec<RegistryAddress>, b: &Vec<RegistryEntry>) -> (r: bool)
    ensures
        r == (addresses_view(a@) == named_views(b@.map_values(|e: RegistryEntry| entry_view(e)))),
{
    let ghost bv = named_views(b@.map_values(|e: RegistryEntry| entry_view(e)));
    if a.len() != b.len() {
        assert(addresses_view(a@).len() != bv.len());
        return false;
    }
    let mut i: usize = 0;
    while i < a.len()
        invariant
            i <= a.len(),
            a.len() == b.len(),
            bv == named_views(b@.map_values(|e: RegistryEntry| entry_view(e))),
            forall|j: int| 0 <= j < i ==> addresses_view(a@)[j] == bv[j],
        decreases a.len() - i,
    {
        let same = match &a[i] {
            RegistryAddress::Named(e) => eq(&chars_of_string(&e.name), &chars_of_string(&b[i].name))
                && eq(&chars_of_string(&e.url), &chars_of_string(&b[i].url)),
            RegistryAddress::Plain(_) => false,
        };
        if !same {
            assert(addresses_view(a@)[i as int] != bv[i as int]);
            return false;
        }
        i = i + 1;
    }
    assert(addresses_view(a@) =~= bv);
    true
}

fn address_listed(v: &Vec<RegistryAddress>, sel: &String) -> (r: bool)
    ensures
        r == selected_listed(addresses_view(v@), sel@),
{
    let s = chars_of_string(sel);
    let mut i: usize = 0;
    while i < v.len()
        invariant
            i <= v.len(),
            s@ == sel@,
            forall|j: int| 0 <= j < i ==> addresses_view(v@)[j].2 != sel@,
        decreases v.len() - i,
    {
        let u = match &v[i] {
            RegistryAddress::Named(e) => chars_of_string(&e.url),
            RegistryAddress::Plain(p) => chars_of_string(p),
        };
        if eq(&u, &s) {
            assert(addresses_view(v@)[i as int].2 == sel@);
            return true;
        }
        i = i + 1;
    }
    false
}

/// Applies the settings given: a TTL (`12h`, `3600`, `-1`, `0`; checked),
/// a repository list (cleaned, at least one), a storage path (not empty).
/// Returns whether anything changed. An error leaves the settings applied
/// before it in place.
pub fn update_config(
    cfg: &mut Settings,
    cache_ttl: Option<String>,
    registry_entries: Option<Vec<RegistryEntry>>,
    storage_path: Option<String>,
) -> (r: Result<bool, EnvHiveError>)
    requires
        cache_ttl matches Some(t) ==> !ttl_cut_char(trim(t@)),
    ensures
        ({
            let ttl_bad = cache_ttl matches Some(t) && !ttl_accepted(trim(t@));
            let ttl_set = cache_ttl matches Some(t) && ttl_accepted(trim(t@)) && trim(t@)
                != old(cfg).cache_ttl@;
            let cleaned = match registry_entries {
                Some(es) => Some(cleaned_entries(es@.map_values(|e: RegistryEntry| entry_view(e)))),
                None => None,
            };
            let reg_bad = !ttl_bad && (cleaned matches Some(c) && (c is Err || (c matches Ok(v)
                && v.len() == 0)));
            let reg_set = cleaned matches Some(Ok(v)) && v.len() > 0 && named_views(v)
                != addresses_view(old(cfg).registry_addresses@);
            let path_bad = !ttl_bad && !reg_bad && (storage_path matches Some(p) && trim(p@).len()
                == 0);
            let path_set = storage_path matches Some(p) && trim(p@).len() > 0 && trim(p@)
                != old(cfg).tool_path@;
            &&& ttl_bad ==> (r matches Err(e) && e.kind == EnvHiveErrorKind::Config && e.message@
                == ttl_message(trim(cache_ttl->0@)) && *final(cfg) == *old(cfg))
            &&& !ttl_bad ==> final(cfg).cache_ttl@ == (if ttl_set {
                trim(cache_ttl->0@)
            } else {
                old(cfg).cache_ttl@
            })
            &&& reg_bad ==> (r matches Err(e) && e.kind == EnvHiveErrorKind::Config && e.message@
                == match cleaned {
                Some(Err(m)) => m,
                _ => "至少需要配置一个插件仓库地址"@,
            })
            &&& !ttl_bad && !reg_bad ==> {
                &&& reg_set ==> addresses_view(final(cfg).registry_addresses@) == named_views(
                    cleaned->0->Ok_0,
                ) && final(cfg).registry_address is None && opt_string(final(cfg).registry_selected)
                    == match opt_string(old(cfg).registry_selected) {
                    Some(s) => if selected_listed(named_views(cleaned->0->Ok_0), s) {
                        Some(s)
                    } else {
                        None
                    },
                    None => None,
                }
                &&& !reg_set ==> final(cfg).registry_addresses == old(cfg).registry_addresses
                    && final(cfg).registry_address == old(cfg).registry_address
                    && final(cfg).registry_selected == old(cfg).registry_selected
            }
            &&& path_bad ==> (r matches Err(e) && e.kind == EnvHiveErrorKind::Config && e.message@
                == "存储路径不能为空"@)
            &&& !ttl_bad && !reg_bad && !path_bad ==> {
                &&& r == Ok::<bool, EnvHiveError>(ttl_set || reg_set || path_set)
                &&& final(cfg).tool_path@ == if path_set {
                    trim(storage_path->0@)
                } else {
                    old(cfg).tool_path@
                }
            }
        }),
{
    let mut changed = false;
    match cache_ttl {
        Some(ttl) => {
            let t = trim_v(&chars_of_string(&ttl));
            if !ttl_ok(&t) {
                let mut m: Vec<char> = Vec::new();
                append_str(&mut m, "非法缓存 TTL: ");
                append(&mut m, &debug_quote(&t));
                append_str(&mut m, "（示例: 12h / 3600 / -1 / 0）");
                return Err(EnvHiveError::new(EnvHiveErrorKind::Config, to_string(&m)));
            }
            if !eq(&chars_of_string(&cfg.cache_ttl), &t) {
                cfg.cache_ttl = to_string(&t);
                changed = true;
            }
        },
        None => {},
    }
    match registry_entries {
        Some(entries) => {
            let cleaned = match clean_entries(&entries) {
                Ok(c) => c,
                Err(e) => {
                    return Err(e);
                },
            };
            if cleaned.len() == 0 {
                return Err(EnvHiveError::new(
                    EnvHiveErrorKind::Config,
                    to_string(&chars_of("至少需要配置一个插件仓库地址")),
                ));
            }
            if !same_addresses(&cfg.registry_addresses, &cleaned) {
                let mut addrs: Vec<RegistryAddress> = Vec::new();
                let mut i: usize = 0;
                while i < cleaned.len()
                    invariant
                        i <= cleaned.len(),
                        addresses_view(addrs@) == named_views(
                            cleaned@.map_values(|e: RegistryEntry| entry_view(e)),
                        ).take(i as int),
                    decreases cleaned.len() - i,
                {
                    let ghost cv = cleaned@.map_values(|e: RegistryEntry| entry_view(e));
                    let ghost before = addresses_view(addrs@);
                    let e = RegistryEntry { name: cleaned[i].name.clone(), url: cleaned[i].url.clone() };
                    assert(cv[i as int] == entry_view(cleaned@[i as int]));
                    assert(named_views(cv)[i as int] == (true, cv[i as int].0, cv[i as int].1));
                    assert(address_view(RegistryAddress::Named(e)) == named_views(cv)[i as int]);
                    addrs.push(RegistryAddress::Named(e));
                    assert(addresses_view(addrs@) =~= before.push(named_views(cv)[i as int]));
                    assert(addresses_view(addrs@) =~= named_views(
                        cleaned@.map_values(|e: RegistryEntry| entry_view(e)),
                    ).take(i + 1));
                    i = i + 1;
                }
                assert(named_views(cleaned@.map_values(|e: RegistryEntry| entry_view(e))).take(
                    cleaned.len() as int,
                ) =~= named_views(cleaned@.map_values(|e: RegistryEntry| entry_view(e))));
                cfg.registry_addresses = addrs;
                cfg.registry_address = None;
                let keep = match &cfg.registry_selected {
                    Some(sel) => address_listed(&cfg.registry_addresses, sel),
                    None => true,
                };
                if !keep {
                    cfg.registry_selected = None;
                }
                changed = true;
            }
        },
        None => {},
    }
    match storage_path {
        Some(sp) => {
            let p = trim_v(&chars_of_string(&sp));
            if p.len() == 0 {
                return Err(EnvHiveError::new(
                    EnvHiveErrorKind::Config,
                    to_string(&chars_of("存储路径不能为空")),
                ));
            }
            if !eq(&chars_of_string(&cfg.tool_path), &p) {
                cfg.tool_path = to_string(&p);
                changed = true;
            }
        },
        None => {},
    }
    Ok(changed)
}

/// Remembers the repository selected in the plugin market (trimmed,
/// without trailing `/`; empty forgets it). Returns whether it changed.
pub fn set_registry_selected(cfg: &mut Settings, url: Option<String>) -> (r: bool)
    ensures
        ({
            let new = match url {
                Some(u) => if clean_url(u@).len() > 0 {
                    Some(clean_url(u@))
                } else {
                    None
                },
                None => None,
            };
            &&& opt_string(final(cfg).registry_selected) == new
            &&& r == (new != opt_string(old(cfg).registry_selected))
            &&& final(cfg).cache_ttl == old(cfg).cache_ttl
            &&& final(cfg).registry_addresses == old(cfg).registry_addresses
            &&& final(cfg).tool_path == old(cfg).tool_path
        }),
{
    let new: Option<Vec<char>> = match url {
        Some(u) => {
            let c = strip_trail_v(&trim_v(&chars_of_string(&u)), '/');
            if c.len() > 0 {
                Some(c)
            } else {
                None
            }
        },
        None => None,
    };
    let same = match (&new, &cfg.registry_selected) {
        (Some(a), Some(b)) => eq(a, &chars_of_string(b)),
        (None, None) => true,
        _ => false,
    };
    if !same {
        cfg.registry_selected = match new {
            Some(c) => Some(to_string(&c)),
            None => None,
        };
    }
    !same
}

} // verus!
