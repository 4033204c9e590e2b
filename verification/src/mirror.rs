//! Download acceleration mirrors: official download URLs are rewritten by
//! prefix. User rules come first, then the built-in fallback rules; the
//! rewriting applies to version lists, packages and checksum URLs alike.

use vstd::prelude::*;

use crate::error::{EnvHiveError, EnvHiveErrorKind};
use crate::strmap::{
    distinct_keys, inserted, lemma_lookup_inserted, lemma_lookup_removed, lookup, removed, StrMap,
};
use crate::tool::MirrorCandidate;
use crate::text::{
    append, append_str, chars_of, chars_of_string, eq, join, starts_with, starts_with_v, slice_of,
    to_string,
};

verus! {

/// The download mirror configuration: whether it is on, and the user's
/// `official prefix -> mirror prefix` rules.
pub struct DownloadMirrorConfig {
    pub enable: bool,
    pub rules: StrMap,
}

/// Built-in fallback rules, tried in order.
pub open spec fn builtin_rules() -> Seq<(Seq<char>, Seq<char>)> {
    seq![
        ("https://nodejs.org/dist/"@, "https://npmmirror.com/mirrors/node/"@),
        ("https://dl.google.com/go/"@, "https://mirrors.aliyun.com/golang/"@),
        ("https://static.rust-lang.org/dist/"@, "https://rsproxy.cn/dist/"@),
    ]
}

/// The built-in fallback rules.
pub fn builtin_rule_list() -> (r: Vec<(&'static str, &'static str)>)
    ensures
        r@.map_values(|p: (&str, &str)| (p.0@, p.1@)) == builtin_rules(),
{
    let r = vec![
        ("https://nodejs.org/dist/", "https://npmmirror.com/mirrors/node/"),
        ("https://dl.google.com/go/", "https://mirrors.aliyun.com/golang/"),
        ("https://static.rust-lang.org/dist/", "https://rsproxy.cn/dist/"),
    ];
    assert(r@.map_values(|p: (&str, &str)| (p.0@, p.1@)) =~= builtin_rules());
    r
}

/// `k` is the first rule whose prefix starts `url`.
pub open spec fn first_rule(rules: Seq<(Seq<char>, Seq<char>)>, url: Seq<char>, k: int) -> bool {
    &&& 0 <= k < rules.len()
    &&& starts_with(url, rules[k].0)
    &&& forall|j: int| 0 <= j < k ==> !starts_with(url, rules[j].0)
}

pub open spec fn some_rule(rules: Seq<(Seq<char>, Seq<char>)>, url: Seq<char>) -> bool {
    exists|j: int| 0 <= j < rules.len() && starts_with(url, rules[j].0)
}

/// `url` with its prefix `from` replaced by `to`.
pub open spec fn rewrite(url: Seq<char>, from: Seq<char>, to: Seq<char>) -> Seq<char> {
    to + url.skip(from.len() as int)
}

/// The mirrored URL: by the first matching user rule, else by the first
/// matching built-in rule, else unchanged; unchanged when mirroring is off.
pub open spec fn mirrored(enabled: bool, user: Seq<(Seq<char>, Seq<char>)>, url: Seq<char>) -> Seq<
    char,
> {
    if !enabled {
        url
    } else if some_rule(user, url) {
        let k = choose|k: int| first_rule(user, url, k);
        rewrite(url, user[k].0, user[k].1)
    } else if some_rule(builtin_rules(), url) {
        let k = choose|k: int| first_rule(builtin_rules(), url, k);
        rewrite(url, builtin_rules()[k].0, builtin_rules()[k].1)
    } else {
        url
    }
}

/// What `apply` gives for an optional configuration.
pub open spec fn apply_spec(cfg: Option<&DownloadMirrorConfig>, url: Seq<char>) -> Seq<char> {
    match cfg {
        None => url,
        Some(c) => mirrored(c.enable, c.rules.pairs(), url),
    }
}

proof fn lemma_first_rule_unique(rules: Seq<(Seq<char>, Seq<char>)>, url: Seq<char>, k: int)
    requires
        first_rule(rules, url, k),
    ensures
        some_rule(rules, url),
        (choose|j: int| first_rule(rules, url, j)) == k,
{
    let c = choose|j: int| first_rule(rules, url, j);
    assert(first_rule(rules, url, c));
    if c < k {
        assert(!starts_with(url, rules[c].0));
    }
    if k < c {
        assert(!starts_with(url, rules[k].0));
    }
}

/// With mirroring on, a URL that no user rule matches is mirrored as the
/// built-in rules alone mirror it, however many user rules there are; and
/// that is by the first built-in rule whose official prefix starts it.
pub proof fn lemma_builtin_after_user(user: Seq<(Seq<char>, Seq<char>)>, url: Seq<char>, k: int)
    requires
        forall|j: int| 0 <= j < user.len() ==> !starts_with(url, #[trigger] user[j].0),
    ensures
        mirrored(true, user, url) == mirrored(true, Seq::empty(), url),
        0 <= k < builtin_rules().len() && starts_with(url, builtin_rules()[k].0) && (forall|j: int|
            0 <= j < k ==> !starts_with(url, #[trigger] builtin_rules()[j].0)) ==> mirrored(true, user, url)
            == builtin_rules()[k].1 + url.skip(builtin_rules()[k].0.len() as int),
{
    assert(!some_rule(user, url));
    assert(!some_rule(Seq::<(Seq<char>, Seq<char>)>::empty(), url));
    if 0 <= k < builtin_rules().len() && starts_with(url, builtin_rules()[k].0) && (forall|j: int|
        0 <= j < k ==> !starts_with(url, #[trigger] builtin_rules()[j].0)) {
        lemma_first_rule_unique(builtin_rules(), url, k);
    }
}

/// User rules come first: with mirroring on, a URL that a user rule matches
/// is rewritten by the first such user rule, whatever the built-in rules
/// say; with mirroring off, every URL stays as it is.
pub proof fn lemma_user_rules_first(user: Seq<(Seq<char>, Seq<char>)>, url: Seq<char>, k: int)
    requires
        0 <= k < user.len(),
        starts_with(url, user[k].0),
        forall|j: int| 0 <= j < k ==> !starts_with(url, #[trigger] user[j].0),
    ensures
        mirrored(true, user, url) == user[k].1 + url.skip(user[k].0.len() as int),
        mirrored(false, user, url) == url,
{
    lemma_first_rule_unique(user, url, k);
}

/// `to` followed by `url` after the prefix `from`.
fn rewrite_v(url: &Vec<char>, from_len: usize, to: &Vec<char>) -> (r: Vec<char>)
    requires
        from_len <= url.len(),
    ensures
        r@ == to@ + url@.skip(from_len as int),
{
    let mut r: Vec<char> = Vec::new();
    append(&mut r, to);
    let rest = slice_of(url, from_len, url.len());
    append(&mut r, &rest);
    assert(url@.subrange(from_len as int, url@.len() as int) =~= url@.skip(from_len as int));
    assert(r@ =~= to@ + url@.skip(from_len as int));
    r
}

/// Applies mirror rewriting to `url`; with no configuration, or mirroring
/// off, or no matching rule, the URL is returned unchanged.
pub fn apply(cfg: Option<&DownloadMirrorConfig>, url: &str) -> (r: String)
    ensures
        r@ == apply_spec(cfg, url@),
{
    let u = chars_of(url);
    let c = match cfg {
        None => {
            return to_string(&u);
        },
        Some(c) => c,
    };
    if !c.enable {
        return to_string(&u);
    }
    let n = c.rules.len();
    let mut i: usize = 0;
    while i < n
        invariant
            i <= n,
            n == c.rules.pairs().len(),
            u@ == url@,
            cfg == Some(c),
            c.enable,
            forall|j: int| 0 <= j < i ==> !starts_with(url@, c.rules.pairs()[j].0),
        decreases n - i,
    {
        let (k, v) = c.rules.entry(i);
        let kc = chars_of_string(k);
        if starts_with_v(&u, &kc) {
            let vc = chars_of_string(v);
            let r = rewrite_v(&u, kc.len(), &vc);
            proof {
                assert(kc@ == c.rules.pairs()[i as int].0);
                assert(first_rule(c.rules.pairs(), url@, i as int));
                lemma_first_rule_unique(c.rules.pairs(), url@, i as int);
                assert(cfg == Some(c));
                assert(r@ == mirrored(c.enable, c.rules.pairs(), url@));
            }
            return to_string(&r);
        }
        i = i + 1;
    }
    let builtin = builtin_rule_list();
    let ghost b = builtin_rules();
    let mut i: usize = 0;
    while i < builtin.len()
        invariant
            i <= builtin.len(),
            builtin@.map_values(|p: (&str, &str)| (p.0@, p.1@)) == b,
            b == builtin_rules(),
            u@ == url@,
            cfg == Some(c),
            c.enable,
            !some_rule(c.rules.pairs(), url@),
            forall|j: int| 0 <= j < i ==> !starts_with(url@, b[j].0),
        decreases builtin.len() - i,
    {
        let (k, v) = builtin[i];
        let kc = chars_of(k);
        proof {
            assert(b[i as int] == (k@, v@));
        }
        if starts_with_v(&u, &kc) {
            let vc = chars_of(v);
            let r = rewrite_v(&u, kc.len(), &vc);
            proof {
                assert(first_rule(b, url@, i as int));
                lemma_first_rule_unique(b, url@, i as int);
                assert(r@ == mirrored(c.enable, c.rules.pairs(), url@));
            }
            return to_string(&r);
        }
        i = i + 1;
    }
    to_string(&u)
}

/// The URL for logs: itself, or itself followed by the mirror it goes to.
pub open spec fn display_spec(url: Seq<char>, cfg: Option<&DownloadMirrorConfig>) -> Seq<char> {
    let m = apply_spec(cfg, url);
    if m == url {
        url
    } else {
        url + "（镜像 → "@ + m + "）"@
    }
}

pub fn display(url: &str, cfg: Option<&DownloadMirrorConfig>) -> (r: String)
    ensures
        r@ == display_spec(url@, cfg),
{
    let m = apply(cfg, url);
    let mc = chars_of_string(&m);
    let uc = chars_of(url);
    if eq(&mc, &uc) {
        to_string(&uc)
    } else {
        let mut out: Vec<char> = Vec::new();
        append(&mut out, &uc);
        append_str(&mut out, "（镜像 → ");
        append(&mut out, &mc);
        append_str(&mut out, "）");
        to_string(&out)
    }
}

// ---------------------------------------------------------------------------
// Per-tool mirrors
// ---------------------------------------------------------------------------

/// The rules with a tool's declared mirrors added where the user has no rule
/// for the same official prefix (user rules win).
pub open spec fn with_tool_rules(e: Seq<(Seq<char>, Seq<char>)>, ms: Seq<MirrorCandidate>) -> Seq<
    (Seq<char>, Seq<char>),
>
    decreases ms.len(),
{
    if ms.len() == 0 {
        e
    } else {
        let p = with_tool_rules(e, ms.drop_last());
        let m = ms.last();
        if lookup(p, m.from@) is Some {
            p
        } else {
            inserted(p, m.from@, m.to@)
        }
    }
}

/// The mirror configuration in effect for a tool: the user's configuration
/// plus the tool's declared mirrors for prefixes the user has no rule for.
pub fn effective_mirror(cfg: &DownloadMirrorConfig, mirrors: &[MirrorCandidate]) -> (r:
    DownloadMirrorConfig)
    ensures
        r.enable == cfg.enable,
        r.rules.pairs() == with_tool_rules(cfg.rules.pairs(), mirrors@),
{
    let mut rules = cfg.rules.copy();
    let mut i: usize = 0;
    while i < mirrors.len()
        invariant
            i <= mirrors.len(),
            rules.pairs() == with_tool_rules(cfg.rules.pairs(), mirrors@.take(i as int)),
        decreases mirrors.len() - i,
    {
        let m = &mirrors[i];
        assert(mirrors@.take(i + 1).drop_last() =~= mirrors@.take(i as int));
        if rules.get(m.from.as_str()).is_none() {
            rules.insert(m.from.clone(), m.to.clone());
        }
        i = i + 1;
    }
    assert(mirrors@.take(mirrors.len() as int) =~= mirrors@);
    DownloadMirrorConfig { enable: cfg.enable, rules }
}

/// The rules without those for the official prefixes of `ms`.
pub open spec fn without_tool_rules(e: Seq<(Seq<char>, Seq<char>)>, ms: Seq<MirrorCandidate>) -> Seq<
    (Seq<char>, Seq<char>),
>
    decreases ms.len(),
{
    if ms.len() == 0 {
        e
    } else {
        removed(without_tool_rules(e, ms.drop_last()), ms.last().from@)
    }
}

/// The rules with every mirror named `name` set (a mirror may cover several
/// official prefixes).
pub open spec fn with_named_rules(
    e: Seq<(Seq<char>, Seq<char>)>,
    ms: Seq<MirrorCandidate>,
    name: Seq<char>,
) -> Seq<(Seq<char>, Seq<char>)>
    decreases ms.len(),
{
    if ms.len() == 0 {
        e
    } else {
        let p = with_named_rules(e, ms.drop_last(), name);
        if ms.last().name@ == name {
            inserted(p, ms.last().from@, ms.last().to@)
        } else {
            p
        }
    }
}

pub open spec fn names_mirror(ms: Seq<MirrorCandidate>, name: Seq<char>) -> bool {
    exists|i: int| 0 <= i < ms.len() && ms[i].name@ == name
}

proof fn lemma_no_named_rules(e: Seq<(Seq<char>, Seq<char>)>, ms: Seq<MirrorCandidate>, name: Seq<char>)
    requires
        !names_mirror(ms, name),
    ensures
        with_named_rules(e, ms, name) == e,
    decreases ms.len(),
{
    if ms.len() > 0 {
        let d = ms.drop_last();
        assert(!names_mirror(d, name)) by {
            if names_mirror(d, name) {
                let w = choose|i: int| 0 <= i < d.len() && d[i].name@ == name;
                assert(ms[w] == d[w]);
            }
        }
        assert(ms[ms.len() - 1].name@ != name);
        lemma_no_named_rules(e, d, name);
    }
}

/// A mirror name that selects the official source.
pub open spec fn official_name(name: Option<Seq<char>>) -> bool {
    match name {
        None => true,
        Some(n) => n.len() == 0 || n == "官方"@,
    }
}

pub open spec fn mirror_names(ms: Seq<MirrorCandidate>) -> Seq<Seq<char>> {
    ms.map_values(|m: MirrorCandidate| m.name@)
}

pub open spec fn no_mirrors_message(tool: Seq<char>) -> Seq<char> {
    "工具 "@ + tool + " 未声明下载加速镜像（插件 TOOL.mirrors 缺失）"@
}

pub open spec fn unknown_mirror_message(tool: Seq<char>, name: Seq<char>, ms: Seq<MirrorCandidate>) -> Seq<
    char,
> {
    "工具 "@ + tool + " 未声明镜像「"@ + name + "」（可选："@ + join(mirror_names(ms), " / "@) + "）"@
}

/// Selects a tool's download mirror among those it declares: the official
/// source (no name, empty, or `官方`) removes the tool's rules; a name sets
/// every mirror of that name. A tool without mirrors, or an unknown name, is
/// a configuration error; for an unknown name the tool's rules are already
/// removed.
pub fn set_tool_mirror(
    cfg: &mut DownloadMirrorConfig,
    tool: &str,
    mirrors: &[MirrorCandidate],
    mirror_name: Option<&str>,
) -> (r: Result<(), EnvHiveError>)
    ensures
        final(cfg).enable == old(cfg).enable,
        mirrors@.len() == 0 ==> final(cfg).rules.pairs() == old(cfg).rules.pairs() && (r matches Err(
            e,
        ) && e.kind == EnvHiveErrorKind::Config && e.message@ == no_mirrors_message(tool@)),
        mirrors@.len() > 0 ==> ({
            let cleared = without_tool_rules(old(cfg).rules.pairs(), mirrors@);
            let name = match mirror_name {
                Some(n) => Some(n@),
                None => None,
            };
            if official_name(name) {
                r is Ok && final(cfg).rules.pairs() == cleared
            } else if !names_mirror(mirrors@, name->0) {
                &&& final(cfg).rules.pairs() == cleared
                &&& r matches Err(e) && e.kind == EnvHiveErrorKind::Config && e.message@
                    == unknown_mirror_message(tool@, name->0, mirrors@)
            } else {
                r is Ok && final(cfg).rules.pairs() == with_named_rules(cleared, mirrors@, name->0)
            }
        }),
{
    if mirrors.len() == 0 {
        let mut m: Vec<char> = Vec::new();
        append_str(&mut m, "工具 ");
        append_str(&mut m, tool);
        append_str(&mut m, " 未声明下载加速镜像（插件 TOOL.mirrors 缺失）");
        return Err(EnvHiveError::new(EnvHiveErrorKind::Config, to_string(&m)));
    }
    let ghost e0 = cfg.rules.pairs();
    let mut i: usize = 0;
    while i < mirrors.len()
        invariant
            i <= mirrors.len(),
            cfg.enable == old(cfg).enable,
            e0 == old(cfg).rules.pairs(),
            cfg.rules.pairs() == without_tool_rules(e0, mirrors@.take(i as int)),
        decreases mirrors.len() - i,
    {
        assert(mirrors@.take(i + 1).drop_last() =~= mirrors@.take(i as int));
        cfg.rules.remove(mirrors[i].from.as_str());
        i = i + 1;
    }
    assert(mirrors@.take(mirrors.len() as int) =~= mirrors@);
    let name = match mirror_name {
        None => {
            return Ok(());
        },
        Some(n) => n,
    };
    let nc = chars_of(name);
    if nc.len() == 0 || eq(&nc, &chars_of("官方")) {
        return Ok(());
    }
    let ghost cleared = cfg.rules.pairs();
    let mut found = false;
    let mut j: usize = 0;
    while j < mirrors.len()
        invariant
            j <= mirrors.len(),
            nc@ == name@,
            cfg.enable == old(cfg).enable,
            found == names_mirror(mirrors@.take(j as int), name@),
            cfg.rules.pairs() == with_named_rules(cleared, mirrors@.take(j as int), name@),
        decreases mirrors.len() - j,
    {
        let m = &mirrors[j];
        let ghost t = mirrors@.take(j + 1);
        assert(t.drop_last() =~= mirrors@.take(j as int));
        assert(t.last() == mirrors@[j as int]);
        if eq(&chars_of_string(&m.name), &nc) {
            cfg.rules.insert(m.from.clone(), m.to.clone());
            found = true;
            assert(t[j as int].name@ == name@);
        } else {
            proof {
                if names_mirror(t, name@) {
                    let w = choose|k: int| 0 <= k < t.len() && t[k].name@ == name@;
                    assert(mirrors@.take(j as int)[w] == t[w]);
                }
            }
        }
        j = j + 1;
    }
    assert(mirrors@.take(mirrors.len() as int) =~= mirrors@);
    if !found {
        proof {
            lemma_no_named_rules(cleared, mirrors@, name@);
        }
        let mut names: Vec<Vec<char>> = Vec::new();
        let mut k: usize = 0;
        while k < mirrors.len()
            invariant
                k <= mirrors.len(),
                cfg.rules.pairs() == cleared,
                cfg.enable == old(cfg).enable,
                crate::text::views(names@) == mirror_names(mirrors@).take(k as int),
            decreases mirrors.len() - k,
        {
            let ghost before = crate::text::views(names@);
            names.push(chars_of_string(&mirrors[k].name));
            assert(crate::text::views(names@) =~= before.push(mirrors@[k as int].name@));
            assert(mirror_names(mirrors@).take(k + 1) =~= mirror_names(mirrors@).take(k as int).push(
                mirrors@[k as int].name@,
            ));
            k = k + 1;
        }
        assert(mirror_names(mirrors@).take(mirrors.len() as int) =~= mirror_names(mirrors@));
        let joined = crate::text::join_v(&names, &chars_of(" / "));
        let mut m: Vec<char> = Vec::new();
        append_str(&mut m, "工具 ");
        append_str(&mut m, tool);
        append_str(&mut m, " 未声明镜像「");
        append_str(&mut m, name);
        append_str(&mut m, "」（可选：");
        append(&mut m, &joined);
        append_str(&mut m, "）");
        return Err(EnvHiveError::new(EnvHiveErrorKind::Config, to_string(&m)));
    }
    Ok(())
}

/// Turns mirroring on or off, and replaces the user rules when new ones are
/// given.
pub fn set_download_mirror(cfg: &mut DownloadMirrorConfig, enable: bool, rules: Option<StrMap>)
    ensures
        final(cfg).enable == enable,
        final(cfg).rules.pairs() == match rules {
            Some(r) => r.pairs(),
            None => old(cfg).rules.pairs(),
        },
{
    cfg.enable = enable;
    match rules {
        Some(r) => {
            cfg.rules = r;
        },
        None => {},
    }
}

/// The name of the first mirror of `ms` that the rules have switched on:
/// a real mirror (`from` differs from `to`) whose `from` prefix the rules
/// send to its `to` prefix.
pub open spec fn active_mirror(ms: Seq<MirrorCandidate>, rules: Seq<(Seq<char>, Seq<char>)>) -> Option<
    Seq<char>,
>
    decreases ms.len(),
{
    if ms.len() == 0 {
        None
    } else if ms[0].from@ != ms[0].to@ && lookup(rules, ms[0].from@) == Some(ms[0].to@) {
        Some(ms[0].name@)
    } else {
        active_mirror(ms.drop_first(), rules)
    }
}

/// The mirror prefix that the last mirror named `name` with official prefix
/// `q` sets.
pub open spec fn named_target(ms: Seq<MirrorCandidate>, name: Seq<char>, q: Seq<char>) -> Option<
    Seq<char>,
>
    decreases ms.len(),
{
    if ms.len() == 0 {
        None
    } else if ms.last().name@ == name && ms.last().from@ == q {
        Some(ms.last().to@)
    } else {
        named_target(ms.drop_last(), name, q)
    }
}

pub open spec fn declares_prefix(ms: Seq<MirrorCandidate>, q: Seq<char>) -> bool {
    exists|i: int| 0 <= i < ms.len() && ms[i].from@ == q
}

proof fn lemma_cleared_lookup(e: Seq<(Seq<char>, Seq<char>)>, ms: Seq<MirrorCandidate>, q: Seq<char>)
    requires
        distinct_keys(e),
    ensures
        distinct_keys(without_tool_rules(e, ms)),
        lookup(without_tool_rules(e, ms), q) == (if declares_prefix(ms, q) {
            None
        } else {
            lookup(e, q)
        }),
    decreases ms.len(),
{
    if ms.len() > 0 {
        let d = ms.drop_last();
        lemma_cleared_lookup(e, d, q);
        lemma_lookup_removed(without_tool_rules(e, d), ms.last().from@, q);
        if declares_prefix(d, q) {
            let w = choose|i: int| 0 <= i < d.len() && d[i].from@ == q;
            assert(ms[w] == d[w]);
        }
        if declares_prefix(ms, q) && ms.last().from@ != q {
            let w = choose|i: int| 0 <= i < ms.len() && ms[i].from@ == q;
            assert(w < ms.len() - 1);
            assert(d[w] == ms[w]);
        }
    }
}

proof fn lemma_named_lookup(
    c: Seq<(Seq<char>, Seq<char>)>,
    ms: Seq<MirrorCandidate>,
    name: Seq<char>,
    q: Seq<char>,
)
    requires
        distinct_keys(c),
    ensures
        distinct_keys(with_named_rules(c, ms, name)),
        lookup(with_named_rules(c, ms, name), q) == match named_target(ms, name, q) {
            Some(t) => Some(t),
            None => lookup(c, q),
        },
    decreases ms.len(),
{
    if ms.len() > 0 {
        let d = ms.drop_last();
        lemma_named_lookup(c, d, name, q);
        if ms.last().name@ == name {
            lemma_lookup_inserted(with_named_rules(c, d, name), ms.last().from@, ms.last().to@, q);
        }
    }
}

proof fn lemma_named_target_is(ms: Seq<MirrorCandidate>, name: Seq<char>, i: int)
    requires
        0 <= i < ms.len(),
        ms[i].name@ == name,
        forall|j: int|
            0 <= j < ms.len() && j != i && ms[j].name@ == name ==> ms[j].from@ != ms[i].from@,
    ensures
        named_target(ms, name, ms[i].from@) == Some(ms[i].to@),
    decreases ms.len(),
{
    if i < ms.len() - 1 {
        let d = ms.drop_last();
        assert(ms.last() == ms[ms.len() - 1]);
        assert forall|j: int|
            0 <= j < d.len() && j != i && d[j].name@ == name implies d[j].from@ != d[i].from@ by {
            assert(d[j] == ms[j]);
        }
        lemma_named_target_is(d, name, i);
    }
}

proof fn lemma_named_target_from(ms: Seq<MirrorCandidate>, name: Seq<char>, q: Seq<char>)
    ensures
        named_target(ms, name, q) matches Some(t) ==> exists|j: int|
            0 <= j < ms.len() && ms[j].name@ == name && ms[j].from@ == q && ms[j].to@ == t,
    decreases ms.len(),
{
    if ms.len() > 0 {
        let d = ms.drop_last();
        lemma_named_target_from(d, name, q);
        if !(ms.last().name@ == name && ms.last().from@ == q) {
            if named_target(d, name, q) is Some {
                let j = choose|j: int|
                    0 <= j < d.len() && d[j].name@ == name && d[j].from@ == q && d[j].to@
                        == named_target(d, name, q)->0;
                assert(ms[j] == d[j]);
            }
        } else {
            assert(ms[ms.len() - 1] == ms.last());
        }
    }
}

proof fn lemma_nothing_active(ms: Seq<MirrorCandidate>, rules: Seq<(Seq<char>, Seq<char>)>)
    requires
        forall|i: int| 0 <= i < ms.len() ==> lookup(rules, #[trigger] ms[i].from@) is None,
    ensures
        active_mirror(ms, rules) is None,
    decreases ms.len(),
{
    if ms.len() > 0 {
        assert(lookup(rules, ms[0].from@) is None);
        let d = ms.drop_first();
        assert forall|i: int| 0 <= i < d.len() implies lookup(rules, #[trigger] d[i].from@) is None by {
            assert(d[i] == ms[i + 1]);
        }
        lemma_nothing_active(d, rules);
    }
}

/// Choosing the official source for a tool leaves none of its mirrors in
/// use.
pub proof fn lemma_official_choice_reads_back(e: Seq<(Seq<char>, Seq<char>)>, ms: Seq<MirrorCandidate>)
    requires
        distinct_keys(e),
    ensures
        active_mirror(ms, without_tool_rules(e, ms)) is None,
{
    assert forall|i: int| 0 <= i < ms.len() implies lookup(
        without_tool_rules(e, ms),
        #[trigger] ms[i].from@,
    ) is None by {
        lemma_cleared_lookup(e, ms, ms[i].from@);
    }
    lemma_nothing_active(ms, without_tool_rules(e, ms));
}

/// A tool's mirrors declare `name` soundly: the mirrors of that name cover
/// each official prefix once, and no mirror of another name sets the same
/// rule as one of them.
pub open spec fn declared_once(ms: Seq<MirrorCandidate>, name: Seq<char>) -> bool {
    &&& forall|i: int, j: int|
        0 <= i < ms.len() && 0 <= j < ms.len() && i != j && ms[i].name@ == name && ms[j].name@
            == name ==> ms[i].from@ != ms[j].from@
    &&& forall|i: int, j: int|
        0 <= i < ms.len() && 0 <= j < ms.len() && ms[i].name@ == name && ms[j].name@ != name
            && ms[j].from@ == ms[i].from@ ==> ms[j].to@ != ms[i].to@
}

/// Choosing a mirror by name (one that really redirects) makes it the
/// mirror the tool is seen to use.
pub proof fn lemma_mirror_choice_reads_back(
    e: Seq<(Seq<char>, Seq<char>)>,
    ms: Seq<MirrorCandidate>,
    name: Seq<char>,
)
    requires
        distinct_keys(e),
        declared_once(ms, name),
        exists|i: int| 0 <= i < ms.len() && ms[i].name@ == name && ms[i].from@ != ms[i].to@,
    ensures
        active_mirror(ms, with_named_rules(without_tool_rules(e, ms), ms, name)) == Some(name),
{
    let c = without_tool_rules(e, ms);
    let r = with_named_rules(c, ms, name);
    lemma_cleared_lookup(e, ms, Seq::empty());
    assert forall|i: int| 0 <= i < ms.len() implies lookup(r, #[trigger] ms[i].from@) == named_target(
        ms,
        name,
        ms[i].from@,
    ) by {
        lemma_cleared_lookup(e, ms, ms[i].from@);
        lemma_named_lookup(c, ms, name, ms[i].from@);
    }
    lemma_active_from(ms, name, r, 0);
    assert(ms.skip(0) =~= ms);
}

proof fn lemma_active_from(
    ms: Seq<MirrorCandidate>,
    name: Seq<char>,
    r: Seq<(Seq<char>, Seq<char>)>,
    k: int,
)
    requires
        0 <= k <= ms.len(),
        declared_once(ms, name),
        forall|i: int|
            0 <= i < ms.len() ==> lookup(r, #[trigger] ms[i].from@) == named_target(ms, name, ms[i].from@),
        exists|i: int| k <= i < ms.len() && ms[i].name@ == name && ms[i].from@ != ms[i].to@,
    ensures
        active_mirror(ms.skip(k), r) == Some(name),
    decreases ms.len() - k,
{
    let s = ms.skip(k);
    let m = ms[k];
    assert(s[0] == m);
    assert(s.drop_first() =~= ms.skip(k + 1));
    let active = m.from@ != m.to@ && lookup(r, m.from@) == Some(m.to@);
    if active {
        lemma_named_target_from(ms, name, m.from@);
        let j = choose|j: int|
            0 <= j < ms.len() && ms[j].name@ == name && ms[j].from@ == m.from@ && ms[j].to@ == m.to@;
        assert(m.name@ == name);
    } else {
        if m.name@ == name && m.from@ != m.to@ {
            assert forall|j: int|
                0 <= j < ms.len() && j != k && ms[j].name@ == name implies ms[j].from@ != ms[k].from@ by {
            }
            lemma_named_target_is(ms, name, k);
            assert(false);
        }
        let w = choose|i: int| k <= i < ms.len() && ms[i].name@ == name && ms[i].from@ != ms[i].to@;
        assert(w != k);
        lemma_active_from(ms, name, r, k + 1);
    }
}

} // verus!
