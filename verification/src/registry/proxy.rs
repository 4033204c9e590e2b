//! Proxies. The download proxy is used inside EnvHive only; the tool proxy
//! writes proxy keys into the npm and pip configurations. Nothing is written
//! into the system-wide environment; old versions did, and what they left
//! behind is recognised here so that it can be removed once.

use vstd::prelude::*;

use crate::error::{EnvHiveError, EnvHiveErrorKind};
use crate::registry::ini::{merge_ini, merge_ini_section, merged_ini, merged_ini_section, pair_views, str_list};
use crate::text::{append_str, chars_of, chars_of_string, eq, starts_with, starts_with_v, to_string};

verus! {

/// The proxy settings of the configuration.
pub struct ProxyConfig {
    pub enable: bool,
    pub url: Option<String>,
}

/// A proxy address starts with `http://`, `https://` or `socks5://`.
pub open spec fn proxy_url_valid(url: Seq<char>) -> bool {
    starts_with(url, "http://"@) || starts_with(url, "https://"@) || starts_with(url, "socks5://"@)
}

/// Whether the proxy address has an accepted scheme.
pub fn validate_proxy_url(url: &str) -> (r: bool)
    ensures
        r == proxy_url_valid(url@),
{
    let u = chars_of(url);
    starts_with_v(&u, &chars_of("http://")) || starts_with_v(&u, &chars_of("https://"))
        || starts_with_v(&u, &chars_of("socks5://"))
}

/// The proxy the download client is built with: none when the proxy is off
/// or has no address, a configuration error when the address is invalid.
pub fn client_proxy_url(cfg: &ProxyConfig) -> (r: Result<Option<String>, EnvHiveError>)
    ensures
        !cfg.enable ==> r matches Ok(None),
        cfg.enable && cfg.url is None ==> r matches Ok(None),
        cfg.enable ==> (cfg.url matches Some(u) ==> (if proxy_url_valid(u@) {
            r matches Ok(Some(v)) && v@ == u@
        } else {
            r matches Err(e) && e.kind == EnvHiveErrorKind::Config && e.message@ == "代理地址无效: "@
                + u@
        })),
{
    if !cfg.enable {
        return Ok(None);
    }
    match &cfg.url {
        None => Ok(None),
        Some(u) => {
            if !validate_proxy_url(u.as_str()) {
                let mut m: Vec<char> = Vec::new();
                append_str(&mut m, "代理地址无效: ");
                append_str(&mut m, u.as_str());
                Err(EnvHiveError::new(EnvHiveErrorKind::Config, to_string(&m)))
            } else {
                Ok(Some(u.clone()))
            }
        },
    }
}

/// The npm keys a proxy sets: `proxy`, `https-proxy`, and `strict-ssl`
/// (off while the proxy is on).
pub open spec fn npm_proxy_updates(url: Seq<char>, enable: bool) -> Seq<(Seq<char>, Seq<char>)> {
    seq![
        ("proxy"@, url),
        ("https-proxy"@, url),
        ("strict-ssl"@, if enable { "false"@ } else { "true"@ }),
    ]
}

/// `.npmrc` after the proxy keys are written; when clearing, the proxy keys
/// not among the updates are removed, and in a second pass `strict-ssl` too.
pub open spec fn npm_proxy_merged(
    content: Seq<char>,
    ups: Seq<(Seq<char>, Seq<char>)>,
    clear: bool,
) -> Seq<char> {
    if clear {
        let m = merged_ini(content, ups, seq!["proxy"@, "https-proxy"@]);
        merged_ini(m, ups, seq!["proxy"@, "https-proxy"@, "strict-ssl"@])
    } else {
        merged_ini(content, ups, Seq::empty())
    }
}

/// The pip configuration after `proxy` is written into (or, when clearing,
/// removed from) `[global]`.
pub open spec fn pip_proxy_merged(
    content: Seq<char>,
    ups: Seq<(Seq<char>, Seq<char>)>,
    clear: bool,
) -> Seq<char> {
    merged_ini_section(
        content,
        "global"@,
        ups,
        if clear {
            seq!["proxy"@]
        } else {
            Seq::empty()
        },
    )
}

/// A file is written unless the result is unchanged and the file does not exist.
pub open spec fn write_needed(merged: Seq<char>, content: Seq<char>, exists: bool) -> bool {
    !(merged == content && !exists)
}

/// What the proxy settings write into npm and pip: the keys, and whether
/// proxy keys are cleared; nothing when the proxy is on without an address.
pub open spec fn proxy_plan(enable: bool, url: Option<Seq<char>>) -> Option<
    (Seq<(Seq<char>, Seq<char>)>, Seq<(Seq<char>, Seq<char>)>, bool),
> {
    match url {
        Some(u) => Some((npm_proxy_updates(u, enable), seq![("proxy"@, u)], !enable)),
        None => if !enable {
            Some((Seq::empty(), Seq::empty(), true))
        } else {
            None
        },
    }
}

/// The new file contents, where one is to be written, and the tools affected.
pub struct ProxyWrites {
    pub npm: Option<String>,
    pub pip: Option<String>,
    pub affected: Vec<String>,
}

/// The content to write, if any: `Some` exactly when a write is needed.
pub open spec fn planned_write(merged: Seq<char>, content: Seq<char>, exists: bool) -> Option<
    Seq<char>,
> {
    if write_needed(merged, content, exists) {
        Some(merged)
    } else {
        None
    }
}

pub open spec fn opt_view(o: Option<String>) -> Option<Seq<char>> {
    match o {
        Some(s) => Some(s@),
        None => None,
    }
}

/// The tools whose configuration is written, npm first.
pub open spec fn affected_tools(npm: bool, pip: bool) -> Seq<Seq<char>> {
    (if npm {
        seq!["npm"@]
    } else {
        Seq::empty()
    }) + (if pip {
        seq!["pip"@]
    } else {
        Seq::empty()
    })
}

fn write_if_needed(merged: String, content: &str, exists: bool) -> (r: Option<String>)
    ensures
        opt_view(r) == planned_write(merged@, content@, exists),
{
    let m = chars_of_string(&merged);
    let c = chars_of(content);
    if eq(&m, &c) && !exists {
        None
    } else {
        Some(merged)
    }
}

fn npm_merge(content: &str, ups: &[(&str, &str)], clear: bool) -> (r: String)
    ensures
        r@ == npm_proxy_merged(content@, pair_views(ups@), clear),
{
    if clear {
        let first: Vec<&str> = vec!["proxy", "https-proxy"];
        let m = merge_ini(content, ups, first.as_slice());
        assert(str_list(first@) =~= seq!["proxy"@, "https-proxy"@]);
        let second: Vec<&str> = vec!["proxy", "https-proxy", "strict-ssl"];
        let r = merge_ini(m.as_str(), ups, second.as_slice());
        assert(str_list(second@) =~= seq!["proxy"@, "https-proxy"@, "strict-ssl"@]);
        r
    } else {
        let none: Vec<&str> = Vec::new();
        let r = merge_ini(content, ups, none.as_slice());
        assert(str_list(none@) =~= Seq::<Seq<char>>::empty());
        r
    }
}

fn pip_merge(content: &str, ups: &[(&str, &str)], clear: bool) -> (r: String)
    ensures
        r@ == pip_proxy_merged(content@, pair_views(ups@), clear),
{
    if clear {
        let rm: Vec<&str> = vec!["proxy"];
        let r = merge_ini_section(content, "global", ups, rm.as_slice());
        assert(str_list(rm@) =~= seq!["proxy"@]);
        r
    } else {
        let none: Vec<&str> = Vec::new();
        let r = merge_ini_section(content, "global", ups, none.as_slice());
        assert(str_list(none@) =~= Seq::<Seq<char>>::empty());
        r
    }
}

/// The tool proxy: from the current npm and pip configurations (and whether
/// their files exist), what is to be written into each, and which tools are
/// affected.
pub fn inject_tool_proxy(
    proxy: &ProxyConfig,
    npm_content: &str,
    npm_exists: bool,
    pip_content: &str,
    pip_exists: bool,
) -> (r: ProxyWrites)
    ensures
        match proxy_plan(proxy.enable, opt_view(proxy.url)) {
            Some((nu, pu, clear)) => {
                &&& opt_view(r.npm) == planned_write(
                    npm_proxy_merged(npm_content@, nu, clear),
                    npm_content@,
                    npm_exists,
                )
                &&& opt_view(r.pip) == planned_write(
                    pip_proxy_merged(pip_content@, pu, clear),
                    pip_content@,
                    pip_exists,
                )
            },
            None => r.npm is None && r.pip is None,
        },
        r.affected@.map_values(|s: String| s@) == affected_tools(r.npm is Some, r.pip is Some),
{
    let mut npm: Option<String> = None;
    let mut pip: Option<String> = None;
    match &proxy.url {
        Some(u) => {
            let ssl = if proxy.enable {
                "false"
            } else {
                "true"
            };
            let nu: Vec<(&str, &str)> = vec![("proxy", u.as_str()), ("https-proxy", u.as_str()), ("strict-ssl", ssl)];
            assert(pair_views(nu@) =~= npm_proxy_updates(u@, proxy.enable));
            let m = npm_merge(npm_content, nu.as_slice(), !proxy.enable);
            npm = write_if_needed(m, npm_content, npm_exists);
            let pu: Vec<(&str, &str)> = vec![("proxy", u.as_str())];
            assert(pair_views(pu@) =~= seq![("proxy"@, u@)]);
            let p = pip_merge(pip_content, pu.as_slice(), !proxy.enable);
            pip = write_if_needed(p, pip_content, pip_exists);
        },
        None => {
            if !proxy.enable {
                let none: Vec<(&str, &str)> = Vec::new();
                assert(pair_views(none@) =~= Seq::<(Seq<char>, Seq<char>)>::empty());
                let m = npm_merge(npm_content, none.as_slice(), true);
                npm = write_if_needed(m, npm_content, npm_exists);
                let p = pip_merge(pip_content, none.as_slice(), true);
                pip = write_if_needed(p, pip_content, pip_exists);
            }
        },
    }
    let mut affected: Vec<String> = Vec::new();
    if npm.is_some() {
        affected.push(to_string(&chars_of("npm")));
    }
    if pip.is_some() {
        affected.push(to_string(&chars_of("pip")));
    }
    assert(affected@.map_values(|s: String| s@) =~= affected_tools(npm is Some, pip is Some));
    ProxyWrites { npm, pip, affected }
}

/// Proxy variables left in the user environment by old versions are removed
/// only when `HTTP_PROXY` still holds the configured address or is empty, so
/// that a proxy the user set by hand stays.
pub open spec fn legacy_proxy_left(url: Option<Seq<char>>, current: Option<Seq<char>>) -> bool {
    match (url, current) {
        (Some(u), Some(v)) => v == u || v.len() == 0,
        _ => false,
    }
}

/// Whether `HTTP_PROXY`, `HTTPS_PROXY` and `NO_PROXY` are to be removed, given
/// the current value of `HTTP_PROXY` in the user environment.
pub fn cleanup_legacy_env_vars(cfg: &ProxyConfig, current: Option<&str>) -> (r: bool)
    ensures
        r == legacy_proxy_left(
            opt_view(cfg.url),
            match current {
                Some(c) => Some(c@),
                None => None,
            },
        ),
{
    match (&cfg.url, current) {
        (Some(u), Some(v)) => {
            let vc = chars_of(v);
            vc.len() == 0 || eq(&vc, &chars_of_string(u))
        },
        _ => false,
    }
}

} // verus!
