//! Version resolution and fuzzy matching: exact, then prefix (the highest),
//! then tag (`latest` / `lts` / `stable`), then substring.

use vstd::prelude::*;

use crate::error::{EnvHiveError, EnvHiveErrorKind};
use crate::order::{is_le, Order3};
use crate::text::{
    append, append_str, chars_of, chars_of_string, contains, contains_v, debug_quote, debug_str, eq,
    has_char,
    has_char_v, lower, strip_lead, strip_lead_v, to_lower, to_string, trim, trim_v, views,
    char_pred, lead_len, starts_with, is_ascii_digit,
};
use crate::sort::stably_sorted;
use crate::version::{
    lemma_version_order_flip, lemma_version_order_trans, prefix_match, sort_versions,
    str_views, version_compare, version_le, version_order, versions_sorted, is_prefix_match,
};

verus! {

/// Tag versions: latest / lts / stable.
#[derive(Debug, Clone, Copy, PartialEq, Eq, Structural)]
pub enum ResolveTag {
    Latest,
    Lts,
    Stable,
}

/// The tag a text names, ignoring surrounding whitespace and ASCII case.
pub open spec fn tag_of(s: Seq<char>) -> Option<ResolveTag> {
    let t = lower(trim(s));
    if t == "latest"@ {
        Some(ResolveTag::Latest)
    } else if t == "lts"@ {
        Some(ResolveTag::Lts)
    } else if t == "stable"@ {
        Some(ResolveTag::Stable)
    } else {
        None
    }
}

impl ResolveTag {
    pub fn from_str(s: &str) -> (r: Option<ResolveTag>)
        ensures
            r == tag_of(s@),
    {
        let c = chars_of(s);
        let t0 = trim_v(&c);
        let t = to_lower(&t0);
        if eq(&t, &chars_of("latest")) {
            Some(ResolveTag::Latest)
        } else if eq(&t, &chars_of("lts")) {
            Some(ResolveTag::Lts)
        } else if eq(&t, &chars_of("stable")) {
            Some(ResolveTag::Stable)
        } else {
            None
        }
    }
}

/// A candidate version with its metadata.
#[derive(Debug)]
pub struct AvailableVersion {
    pub version: String,
    pub lts: bool,
    pub labels: Vec<String>,
}

// ---------------------------------------------------------------------------
// What resolution picks
// ---------------------------------------------------------------------------

/// The query as it is matched: trimmed, leading `v`s removed.
pub open spec fn query_text(query: Seq<char>) -> Seq<char> {
    strip_lead(trim(query), 'v')
}

/// `k` is the first index whose flag is set.
pub open spec fn is_first(f: Seq<bool>, k: int) -> bool {
    &&& 0 <= k < f.len()
    &&& f[k]
    &&& forall|j: int| 0 <= j < k ==> !f[j]
}

pub open spec fn any_flag(f: Seq<bool>) -> bool {
    exists|j: int| 0 <= j < f.len() && f[j]
}

/// `k` is, among the flagged versions, the last of the highest ones (what a
/// stable ascending sort puts last).
pub open spec fn is_best(vs: Seq<Seq<char>>, f: Seq<bool>, k: int) -> bool {
    &&& 0 <= k < vs.len()
    &&& f.len() == vs.len()
    &&& f[k]
    &&& forall|j: int| 0 <= j < vs.len() && f[j] ==> is_le(version_order(vs[j], vs[k]))
    &&& forall|j: int| k < j < vs.len() && f[j] ==> version_order(vs[j], vs[k]) == Order3::Less
}

pub open spec fn exact_flags(vs: Seq<Seq<char>>, q: Seq<char>) -> Seq<bool> {
    Seq::new(vs.len(), |i: int| vs[i] == q)
}

pub open spec fn prefix_flags(vs: Seq<Seq<char>>, q: Seq<char>) -> Seq<bool> {
    Seq::new(vs.len(), |i: int| prefix_match(q, vs[i]))
}

pub open spec fn contains_flags(vs: Seq<Seq<char>>, q: Seq<char>) -> Seq<bool> {
    Seq::new(vs.len(), |i: int| contains(vs[i], q))
}

/// `k` is the index that resolution picks from `vs` for the query text `q`,
/// `tags` flagging the versions that carry the tag that `q` names.
pub open spec fn resolved(vs: Seq<Seq<char>>, q: Seq<char>, tags: Seq<bool>, k: int) -> bool {
    if any_flag(exact_flags(vs, q)) {
        is_first(exact_flags(vs, q), k)
    } else if any_flag(prefix_flags(vs, q)) {
        is_best(vs, prefix_flags(vs, q), k)
    } else if tag_of(q) is Some {
        is_best(vs, tags, k)
    } else {
        is_first(contains_flags(vs, q), k)
    }
}

/// The string-only tag test: `lts` if the version mentions it (any case),
/// `stable` if it has no pre-release `-`, `latest` always.
pub open spec fn tag_matches(v: Seq<char>, tag: ResolveTag) -> bool {
    match tag {
        ResolveTag::Latest => true,
        ResolveTag::Lts => contains(lower(v), "lts"@),
        ResolveTag::Stable => !has_char(v, '-'),
    }
}

pub open spec fn label_is(labels: Seq<String>, name: Seq<char>) -> bool {
    exists|i: int| 0 <= i < labels.len() && lower(labels[i]@) == name
}

/// The metadata tag test: `lts` by the flag or an `lts` label, `stable` by a
/// `stable` label or the absence of `-`, `latest` always.
pub open spec fn meta_matches(v: AvailableVersion, tag: ResolveTag) -> bool {
    match tag {
        ResolveTag::Latest => true,
        ResolveTag::Lts => v.lts || label_is(v.labels@, "lts"@),
        ResolveTag::Stable => label_is(v.labels@, "stable"@) || !has_char(v.version@, '-'),
    }
}

// ---------------------------------------------------------------------------
// Executable pieces
// ---------------------------------------------------------------------------

fn first_flag(f: &Vec<bool>) -> (r: Option<usize>)
    ensures
        match r {
            Some(k) => is_first(f@, k as int),
            None => !any_flag(f@),
        },
{
    let mut i: usize = 0;
    while i < f.len()
        invariant
            i <= f.len(),
            forall|j: int| 0 <= j < i ==> !f@[j],
        decreases f.len() - i,
    {
        if f[i] {
            return Some(i);
        }
        i = i + 1;
    }
    None
}

fn pick_best(vs: &Vec<Vec<char>>, f: &Vec<bool>) -> (r: Option<usize>)
    requires
        f.len() == vs.len(),
    ensures
        match r {
            Some(k) => is_best(views(vs@), f@, k as int),
            None => !any_flag(f@),
        },
{
    let ghost s = views(vs@);
    let mut best: Option<usize> = None;
    let mut i: usize = 0;
    while i < vs.len()
        invariant
            i <= vs.len(),
            f.len() == vs.len(),
            s == views(vs@),
            match best {
                None => forall|j: int| 0 <= j < i ==> !f@[j],
                Some(b) => {
                    &&& b < i
                    &&& f@[b as int]
                    &&& forall|j: int| 0 <= j < i && f@[j] ==> is_le(version_order(s[j], s[b as int]))
                    &&& forall|j: int| b < j < i && f@[j] ==> version_order(s[j], s[b as int])
                        == Order3::Less
                },
            },
        decreases vs.len() - i,
    {
        if f[i] {
            match best {
                None => {
                    proof {
                        crate::version::lemma_version_order_refl(s[i as int]);
                    }
                    best = Some(i);
                },
                Some(b) => {
                    let o = version_compare_chars(&vs[i], &vs[b]);
                    if o != Order3::Less {
                        proof {
                            lemma_version_order_flip(s[i as int], s[b as int]);
                            crate::version::lemma_version_order_refl(s[i as int]);
                            assert forall|j: int| 0 <= j <= i && f@[j] implies is_le(
                                version_order(s[j], s[i as int]),
                            ) by {
                                if j < i {
                                    lemma_version_order_trans(s[j], s[b as int], s[i as int]);
                                }
                            }
                        }
                        best = Some(i);
                    }
                },
            }
        }
        i = i + 1;
    }
    proof {
        if let Some(b) = best {
            assert(is_best(s, f@, b as int));
        }
    }
    best
}

fn version_compare_chars(a: &Vec<char>, b: &Vec<char>) -> (r: Order3)
    ensures
        r == version_order(a@, b@),
{
    let sa = to_string(a);
    let sb = to_string(b);
    version_compare(sa.as_str(), sb.as_str())
}

/// The index that resolution picks, given the tag flags.
fn resolve_index(vs: &Vec<Vec<char>>, q: &Vec<char>, tags: &Vec<bool>) -> (r: Option<usize>)
    requires
        tags.len() == vs.len(),
    ensures
        match r {
            Some(k) => resolved(views(vs@), q@, tags@, k as int),
            None => forall|k: int| !resolved(views(vs@), q@, tags@, k),
        },
{
    let ghost s = views(vs@);
    let mut exact: Vec<bool> = Vec::new();
    let mut prefix: Vec<bool> = Vec::new();
    let mut cont: Vec<bool> = Vec::new();
    let qs = to_string(q);
    let mut i: usize = 0;
    while i < vs.len()
        invariant
            i <= vs.len(),
            s == views(vs@),
            qs@ == q@,
            exact@ == exact_flags(s, q@).take(i as int),
            prefix@ == prefix_flags(s, q@).take(i as int),
            cont@ == contains_flags(s, q@).take(i as int),
        decreases vs.len() - i,
    {
        let vi = to_string(&vs[i]);
        exact.push(eq(&vs[i], q));
        prefix.push(is_prefix_match(qs.as_str(), vi.as_str()));
        cont.push(contains_v(&vs[i], q));
        proof {
            assert(exact@ =~= exact_flags(s, q@).take(i + 1));
            assert(prefix@ =~= prefix_flags(s, q@).take(i + 1));
            assert(cont@ =~= contains_flags(s, q@).take(i + 1));
        }
        i = i + 1;
    }
    proof {
        assert(exact@ =~= exact_flags(s, q@));
        assert(prefix@ =~= prefix_flags(s, q@));
        assert(cont@ =~= contains_flags(s, q@));
    }
    if let Some(k) = first_flag(&exact) {
        return Some(k);
    }
    if let Some(k) = pick_best(vs, &prefix) {
        return Some(k);
    }
    let qstr = to_string(q);
    if let Some(_) = ResolveTag::from_str(qstr.as_str()) {
        let r = pick_best(vs, tags);
        proof {
            if r is None {
                assert forall|k: int| !resolved(s, q@, tags@, k) by {
                    if is_best(s, tags@, k) {
                        assert(tags@[k]);
                    }
                }
            }
        }
        return r;
    }
    let r = first_flag(&cont);
    proof {
        if r is None {
            assert forall|k: int| !resolved(s, q@, tags@, k) by {
                if is_first(contains_flags(s, q@), k) {
                    assert(cont@[k]);
                }
            }
        }
    }
    r
}

/// The message when nothing matches `q`.
pub open spec fn unresolved_message(q: Seq<char>, tagged: bool) -> Seq<char> {
    if tagged {
        "没有匹配标签 "@ + debug_str(q) + " 的版本"@
    } else {
        "无法从候选版本中解析 "@ + debug_str(q) + "（支持精确 / 前缀 / latest / lts / stable）"@
    }
}

fn empty_list_error() -> (e: EnvHiveError)
    ensures
        e.kind == EnvHiveErrorKind::VersionNotFound,
        e.message@ == "可用版本列表为空"@,
{
    EnvHiveError::new(EnvHiveErrorKind::VersionNotFound, to_string(&chars_of("可用版本列表为空")))
}

fn unresolved_error(q: &Vec<char>, tagged: bool) -> (e: EnvHiveError)
    ensures
        e.kind == EnvHiveErrorKind::VersionResolve,
        e.message@ == unresolved_message(q@, tagged),
{
    let mut m: Vec<char> = Vec::new();
    let qq = debug_quote(q);
    if tagged {
        append_str(&mut m, "没有匹配标签 ");
        append(&mut m, &qq);
        append_str(&mut m, " 的版本");
    } else {
        append_str(&mut m, "无法从候选版本中解析 ");
        append(&mut m, &qq);
        append_str(&mut m, "（支持精确 / 前缀 / latest / lts / stable）");
    }
    EnvHiveError::new(EnvHiveErrorKind::VersionResolve, to_string(&m))
}

fn query_chars(query: &str) -> (q: Vec<char>)
    ensures
        q@ == query_text(query@),
{
    let c = chars_of(query);
    let t = trim_v(&c);
    strip_lead_v(&t, 'v')
}

fn string_chars(versions: &[String]) -> (r: Vec<Vec<char>>)
    ensures
        views(r@) == str_views(versions@),
{
    let mut r: Vec<Vec<char>> = Vec::new();
    let mut i: usize = 0;
    while i < versions.len()
        invariant
            i <= versions.len(),
            views(r@) == str_views(versions@).take(i as int),
        decreases versions.len() - i,
    {
        let ghost old_r = r@;
        let c = chars_of_string(&versions[i]);
        r.push(c);
        proof {
            assert(views(r@) =~= views(old_r).push(versions@[i as int]@));
            assert(views(r@) =~= str_views(versions@).take(i + 1));
        }
        i = i + 1;
    }
    proof {
        assert(str_views(versions@).take(versions@.len() as int) =~= str_views(versions@));
    }
    r
}

/// The string-only tag test.
fn matches_tag(v: &Vec<char>, tag: ResolveTag) -> (r: bool)
    ensures
        r == tag_matches(v@, tag),
{
    let lowered = to_lower(v);
    match tag {
        ResolveTag::Latest => true,
        ResolveTag::Lts => contains_v(&lowered, &chars_of("lts")),
        ResolveTag::Stable => !has_char_v(v, '-'),
    }
}

fn has_label(labels: &Vec<String>, name: &str) -> (r: bool)
    ensures
        r == label_is(labels@, name@),
{
    let n = chars_of(name);
    let mut i: usize = 0;
    while i < labels.len()
        invariant
            i <= labels.len(),
            n@ == name@,
            forall|j: int| 0 <= j < i ==> lower(labels@[j]@) != name@,
        decreases labels.len() - i,
    {
        let l = chars_of_string(&labels[i]);
        let lowered = to_lower(&l);
        if eq(&lowered, &n) {
            return true;
        }
        i = i + 1;
    }
    false
}

/// The metadata tag test.
fn matches_meta(v: &AvailableVersion, tag: ResolveTag) -> (r: bool)
    ensures
        r == meta_matches(*v, tag),
{
    match tag {
        ResolveTag::Latest => true,
        ResolveTag::Lts => v.lts || has_label(&v.labels, "lts"),
        ResolveTag::Stable => {
            let c = chars_of_string(&v.version);
            has_label(&v.labels, "stable") || !has_char_v(&c, '-')
        },
    }
}

// ---------------------------------------------------------------------------
// Public resolution
// ---------------------------------------------------------------------------

/// Flags of the string-only tag test for the tag that `q` names.
pub open spec fn string_tags(vs: Seq<Seq<char>>, q: Seq<char>) -> Seq<bool> {
    Seq::new(
        vs.len(),
        |i: int|
            match tag_of(q) {
                Some(t) => tag_matches(vs[i], t),
                None => false,
            },
    )
}

/// Flags of the metadata tag test for the tag that `q` names.
pub open spec fn meta_tags(vs: Seq<AvailableVersion>, q: Seq<char>) -> Seq<bool> {
    Seq::new(
        vs.len(),
        |i: int|
            match tag_of(q) {
                Some(t) => meta_matches(vs[i], t),
                None => false,
            },
    )
}

pub open spec fn meta_views(vs: Seq<AvailableVersion>) -> Seq<Seq<char>> {
    vs.map_values(|v: AvailableVersion| v.version@)
}

/// Resolves `query` among candidate versions: exact match, then the highest
/// prefix match, then the highest version with the named tag (by the version
/// string alone), then the first version containing the query.
pub fn resolve<'a>(versions: &'a [String], query: &str) -> (r: Result<&'a str, EnvHiveError>)
    ensures
        ({
            let vs = str_views(versions@);
            let q = query_text(query@);
            let tags = string_tags(vs, q);
            &&& vs.len() == 0 ==> (r matches Err(e) && e.kind == EnvHiveErrorKind::VersionNotFound
                && e.message@ == "可用版本列表为空"@)
            &&& vs.len() > 0 ==> match r {
                Ok(s) => exists|k: int| resolved(vs, q, tags, k) && s@ == vs[k],
                Err(e) => e.kind == EnvHiveErrorKind::VersionResolve && e.message@
                    == unresolved_message(q, tag_of(q) is Some) && forall|k: int|
                    !resolved(vs, q, tags, k),
            }
        }),
{
    if versions.len() == 0 {
        return Err(empty_list_error());
    }
    let vs = string_chars(versions);
    let q = query_chars(query);
    let qs = to_string(&q);
    let tag = ResolveTag::from_str(qs.as_str());
    let mut tags: Vec<bool> = Vec::new();
    let mut i: usize = 0;
    while i < vs.len()
        invariant
            i <= vs.len(),
            tag == tag_of(q@),
            tags@ == string_tags(views(vs@), q@).take(i as int),
        decreases vs.len() - i,
    {
        let b = match tag {
            Some(t) => matches_tag(&vs[i], t),
            None => false,
        };
        tags.push(b);
        proof {
            assert(tags@ =~= string_tags(views(vs@), q@).take(i + 1));
        }
        i = i + 1;
    }
    proof {
        assert(tags@ =~= string_tags(views(vs@), q@));
    }
    match resolve_index(&vs, &q, &tags) {
        Some(k) => {
            proof {
                assert(views(vs@)[k as int] == versions@[k as int]@);
            }
            Ok(versions[k].as_str())
        },
        None => Err(unresolved_error(&q, tag.is_some())),
    }
}

/// Resolution with metadata: like [`resolve`], but tags are read from the
/// `lts` flag and the labels rather than from the version string.
pub fn resolve_versions_meta<'a>(versions: &'a [AvailableVersion], query: &str) -> (r: Result<
    &'a str,
    EnvHiveError,
>)
    ensures
        ({
            let vs = meta_views(versions@);
            let q = query_text(query@);
            let tags = meta_tags(versions@, q);
            &&& vs.len() == 0 ==> (r matches Err(e) && e.kind == EnvHiveErrorKind::VersionNotFound
                && e.message@ == "可用版本列表为空"@)
            &&& vs.len() > 0 ==> match r {
                Ok(s) => exists|k: int| resolved(vs, q, tags, k) && s@ == vs[k],
                Err(e) => e.kind == EnvHiveErrorKind::VersionResolve && e.message@
                    == unresolved_message(q, tag_of(q) is Some) && forall|k: int|
                    !resolved(vs, q, tags, k),
            }
        }),
{
    if versions.len() == 0 {
        return Err(empty_list_error());
    }
    let mut vs: Vec<Vec<char>> = Vec::new();
    let mut i: usize = 0;
    while i < versions.len()
        invariant
            i <= versions.len(),
            views(vs@) == meta_views(versions@).take(i as int),
        decreases versions.len() - i,
    {
        let ghost old_vs = vs@;
        let c = chars_of_string(&versions[i].version);
        vs.push(c);
        proof {
            assert(views(vs@) =~= views(old_vs).push(versions@[i as int].version@));
            assert(views(vs@) =~= meta_views(versions@).take(i + 1));
        }
        i = i + 1;
    }
    proof {
        assert(views(vs@) =~= meta_views(versions@));
    }
    let q = query_chars(query);
    let qs = to_string(&q);
    let tag = ResolveTag::from_str(qs.as_str());
    let mut tags: Vec<bool> = Vec::new();
    let mut i: usize = 0;
    while i < versions.len()
        invariant
            i <= versions.len(),
            tag == tag_of(q@),
            tags@ == meta_tags(versions@, q@).take(i as int),
        decreases versions.len() - i,
    {
        let b = match tag {
            Some(t) => matches_meta(&versions[i], t),
            None => false,
        };
        tags.push(b);
        proof {
            assert(tags@ =~= meta_tags(versions@, q@).take(i + 1));
        }
        i = i + 1;
    }
    proof {
        assert(tags@ =~= meta_tags(versions@, q@));
    }
    match resolve_index(&vs, &q, &tags) {
        Some(k) => {
            proof {
                assert(views(vs@)[k as int] == versions@[k as int].version@);
            }
            Ok(versions[k].version.as_str())
        },
        None => Err(unresolved_error(&q, tag.is_some())),
    }
}

/// The latest (highest) version among the candidates; the last of equals.
pub fn latest<'a>(versions: &'a [String]) -> (r: Option<&'a str>)
    ensures
        ({
            let vs = str_views(versions@);
            match r {
                Some(s) => exists|k: int|
                    is_best(vs, Seq::new(vs.len(), |i: int| true), k) && s@ == vs[k],
                None => vs.len() == 0,
            }
        }),
{
    let vs = string_chars(versions);
    let mut all: Vec<bool> = Vec::new();
    let mut i: usize = 0;
    while i < vs.len()
        invariant
            i <= vs.len(),
            all@ == Seq::new(vs@.len(), |i: int| true).take(i as int),
        decreases vs.len() - i,
    {
        all.push(true);
        proof {
            assert(all@ =~= Seq::new(vs@.len(), |i: int| true).take(i + 1));
        }
        i = i + 1;
    }
    proof {
        assert(all@ =~= Seq::new(vs@.len(), |i: int| true));
    }
    match pick_best(&vs, &all) {
        Some(k) => {
            proof {
                assert(views(vs@)[k as int] == versions@[k as int]@);
            }
            Some(versions[k].as_str())
        },
        None => {
            proof {
                if vs.len() > 0 {
                    assert(all@[0]);
                }
            }
            None
        },
    }
}

/// The candidates in ascending version order; versions that compare equal
/// (`21.0.9+7`, `21.0.9+9`) keep their order.
pub fn sorted(versions: &[String]) -> (r: Vec<String>)
    ensures
        str_views(r@).to_multiset() == str_views(versions@).to_multiset(),
        versions_sorted(str_views(r@)),
        stably_sorted(version_le(), str_views(versions@), str_views(versions@), str_views(r@)),
{
    let mut v: Vec<String> = Vec::new();
    let mut i: usize = 0;
    while i < versions.len()
        invariant
            i <= versions.len(),
            v@ == versions@.take(i as int),
        decreases versions.len() - i,
    {
        v.push(versions[i].clone());
        proof {
            assert(v@ =~= versions@.take(i + 1));
        }
        i = i + 1;
    }
    proof {
        assert(v@ =~= versions@);
    }
    sort_versions(&mut v);
    v
}

/// A version already installed that answers `query`, tried before fetching
/// the list of available versions (none when nothing is installed or
/// nothing installed resolves).
pub fn resolve_installed(installed: &[String], query: &str) -> (r: Option<String>)
    ensures
        ({
            let vs = str_views(installed@);
            let q = query_text(query@);
            match r {
                Some(s) => vs.len() > 0 && exists|k: int| resolved(vs, q, string_tags(vs, q), k) && s@ == vs[k],
                None => vs.len() == 0 || forall|k: int| !resolved(vs, q, string_tags(vs, q), k),
            }
        }),
{
    if installed.len() == 0 {
        return None;
    }
    match resolve(installed, query) {
        Ok(v) => Some(to_string(&chars_of(v))),
        Err(_) => None,
    }
}

// ---------------------------------------------------------------------------
// Searching the cached version list
// ---------------------------------------------------------------------------

/// An available version matches a search text when the text is empty, or
/// the version or one of its labels contains it, ignoring ASCII case.
pub open spec fn search_hit(v: AvailableVersion, f: Seq<char>) -> bool {
    f.len() == 0 || contains(lower(v.version@), f) || exists|j: int|
        0 <= j < v.labels@.len() && contains(lower(#[trigger] v.labels@[j]@), f)
}

/// The versions of `vs` that match `f`, in order.
pub open spec fn search_hits(vs: Seq<AvailableVersion>, f: Seq<char>) -> Seq<Seq<char>>
    decreases vs.len(),
{
    if vs.len() == 0 {
        Seq::empty()
    } else {
        let rest = search_hits(vs.drop_last(), f);
        if search_hit(vs.last(), f) {
            rest.push(vs.last().version@)
        } else {
            rest
        }
    }
}

fn label_hit(labels: &Vec<String>, f: &Vec<char>) -> (r: bool)
    ensures
        r == exists|j: int| 0 <= j < labels@.len() && contains(lower(#[trigger] labels@[j]@), f@),
{
    let mut i: usize = 0;
    while i < labels.len()
        invariant
            i <= labels.len(),
            forall|j: int| 0 <= j < i ==> !contains(lower(#[trigger] labels@[j]@), f@),
        decreases labels.len() - i,
    {
        if contains_v(&to_lower(&chars_of_string(&labels[i])), f) {
            return true;
        }
        i = i + 1;
    }
    false
}

/// The cached versions matching a search text (trimmed, ASCII case
/// ignored; none or empty matches all), in ascending version order.
pub fn search_versions(cached: &[AvailableVersion], filter: Option<&str>) -> (r: Vec<String>)
    ensures
        str_views(r@).to_multiset() == search_hits(
            cached@,
            match filter {
                Some(t) => lower(trim(t@)),
                None => Seq::<char>::empty(),
            },
        ).to_multiset(),
        versions_sorted(str_views(r@)),
{
    let f: Vec<char> = match filter {
        Some(t) => to_lower(&trim_v(&chars_of(t))),
        None => Vec::new(),
    };
    let mut out: Vec<String> = Vec::new();
    let mut i: usize = 0;
    while i < cached.len()
        invariant
            i <= cached.len(),
            str_views(out@) == search_hits(cached@.take(i as int), f@),
        decreases cached.len() - i,
    {
        let v = &cached[i];
        assert(cached@.take(i + 1).drop_last() =~= cached@.take(i as int));
        assert(cached@.take(i + 1).last() == cached@[i as int]);
        let hit = f.len() == 0 || contains_v(&to_lower(&chars_of_string(&v.version)), &f)
            || label_hit(&v.labels, &f);
        if hit {
            let ghost before = str_views(out@);
            out.push(v.version.clone());
            assert(str_views(out@) =~= before.push(v.version@));
        }
        i = i + 1;
    }
    assert(cached@.take(cached.len() as int) =~= cached@);
    sort_versions(&mut out);
    out
}

// ---------------------------------------------------------------------------
// Laws
// ---------------------------------------------------------------------------

/// Among flagged versions there is always a highest one (the last of equals).
pub proof fn lemma_best_exists(vs: Seq<Seq<char>>, f: Seq<bool>, j: int)
    requires
        f.len() == vs.len(),
        0 <= j < f.len(),
        f[j],
    ensures
        exists|k: int| is_best(vs, f, k),
    decreases vs.len(),
{
    let n = vs.len() - 1;
    let vd = vs.drop_last();
    let fd = f.drop_last();
    crate::version::lemma_version_order_refl(vs[n]);
    if exists|i: int| 0 <= i < n && f[i] {
        let i = choose|i: int| 0 <= i < n && f[i];
        assert(fd[i]);
        lemma_best_exists(vd, fd, i);
        let kp = choose|k: int| is_best(vd, fd, k);
        assert(vd[kp] == vs[kp] && fd[kp] == f[kp]);
        assert forall|jj: int| 0 <= jj < n && f[jj] implies is_le(version_order(vs[jj], vs[kp])) by {
            assert(vd[jj] == vs[jj] && fd[jj] == f[jj]);
        }
        assert forall|jj: int| kp < jj < n && f[jj] implies version_order(vs[jj], vs[kp]) == Order3::Less by {
            assert(vd[jj] == vs[jj] && fd[jj] == f[jj]);
        }
        if f[n] && version_order(vs[n], vs[kp]) != Order3::Less {
            lemma_version_order_flip(vs[n], vs[kp]);
            assert forall|jj: int| 0 <= jj < vs.len() && f[jj] implies is_le(version_order(vs[jj], vs[n])) by {
                if jj < n {
                    lemma_version_order_trans(vs[jj], vs[kp], vs[n]);
                }
            }
            assert(is_best(vs, f, n));
        } else {
            assert(is_best(vs, f, kp));
        }
    } else {
        assert(j == n);
        assert(is_best(vs, f, n));
    }
}

/// With metadata, the query `stable` (when no version matches it exactly or
/// as a prefix) resolves as soon as some candidate is labelled `stable` or
/// has no pre-release `-`; what it picks is such a candidate, and no other
/// such candidate is higher.
pub proof fn lemma_meta_stable(vs: Seq<AvailableVersion>, query: Seq<char>)
    requires
        tag_of(query_text(query)) == Some(ResolveTag::Stable),
        !any_flag(exact_flags(meta_views(vs), query_text(query))),
        !any_flag(prefix_flags(meta_views(vs), query_text(query))),
    ensures
        (exists|j: int| 0 <= j < vs.len() && !vs[j].version@.contains('-')) ==> exists|k: int|
            resolved(meta_views(vs), query_text(query), meta_tags(vs, query_text(query)), k),
        forall|k: int|
            resolved(meta_views(vs), query_text(query), meta_tags(vs, query_text(query)), k) ==> {
                &&& 0 <= k < vs.len()
                &&& (!vs[k].version@.contains('-') || label_is(vs[k].labels@, "stable"@))
                &&& forall|j: int|
                    0 <= j < vs.len() && (!vs[j].version@.contains('-') || label_is(vs[j].labels@, "stable"@))
                        ==> is_le(version_order(vs[j].version@, vs[k].version@))
            },
{
    let q = query_text(query);
    let mv = meta_views(vs);
    let tags = meta_tags(vs, q);
    assert forall|j: int| 0 <= j < vs.len() implies #[trigger] tags[j] == (label_is(vs[j].labels@, "stable"@)
        || !vs[j].version@.contains('-')) && mv[j] == vs[j].version@ by {
        if has_char(vs[j].version@, '-') {
            let i = choose|i: int| 0 <= i < vs[j].version@.len() && vs[j].version@[i] == '-';
            assert(vs[j].version@.contains('-'));
        }
        if vs[j].version@.contains('-') {
            let i = choose|i: int| 0 <= i < vs[j].version@.len() && vs[j].version@[i] == '-';
            assert(has_char(vs[j].version@, '-'));
        }
    }
    if exists|j: int| 0 <= j < vs.len() && !vs[j].version@.contains('-') {
        let j = choose|j: int| 0 <= j < vs.len() && !vs[j].version@.contains('-');
        assert(tags[j]);
        lemma_best_exists(mv, tags, j);
        let k = choose|k: int| is_best(mv, tags, k);
        assert(resolved(mv, q, tags, k));
    }
    assert forall|k: int| resolved(mv, q, tags, k) implies {
        &&& 0 <= k < vs.len()
        &&& (!vs[k].version@.contains('-') || label_is(vs[k].labels@, "stable"@))
        &&& forall|j: int|
            0 <= j < vs.len() && (!vs[j].version@.contains('-') || label_is(vs[j].labels@, "stable"@))
                ==> is_le(version_order(vs[j].version@, vs[k].version@))
    } by {
        assert(is_best(mv, tags, k));
        assert(tags[k]);
        assert forall|j: int|
            0 <= j < vs.len() && (!vs[j].version@.contains('-') || label_is(vs[j].labels@, "stable"@))
                implies is_le(version_order(vs[j].version@, vs[k].version@)) by {
            assert(tags[j]);
        }
    }
}

/// The order of the rules: a candidate equal to the query wins (the first
/// such); else the highest candidate the query is a prefix of; else, for a
/// tag, the highest tagged candidate; else the first candidate containing
/// the query. Whenever some candidate qualifies at a step, resolution gives
/// one.
pub proof fn lemma_resolution_rules(vs: Seq<Seq<char>>, q: Seq<char>, tags: Seq<bool>)
    requires
        tags.len() == vs.len(),
    ensures
        (exists|j: int| 0 <= j < vs.len() && vs[j] == q) ==> (exists|k: int| resolved(vs, q, tags, k))
            && forall|k: int| #[trigger] resolved(vs, q, tags, k) ==> 0 <= k < vs.len() && vs[k] == q
            && forall|j: int| 0 <= j < k ==> vs[j] != q,
        (forall|j: int| 0 <= j < vs.len() ==> vs[j] != q) && (exists|j: int|
            0 <= j < vs.len() && prefix_match(q, vs[j])) ==> (exists|k: int| resolved(vs, q, tags, k))
            && forall|k: int| #[trigger] resolved(vs, q, tags, k) ==> 0 <= k < vs.len() && prefix_match(q, vs[k])
            && forall|j: int| 0 <= j < vs.len() && prefix_match(q, vs[j]) ==> is_le(
            version_order(vs[j], vs[k]),
        ),
        (forall|j: int| 0 <= j < vs.len() ==> vs[j] != q && !prefix_match(q, vs[j])) && tag_of(q) is Some
            ==> ((exists|j: int| 0 <= j < vs.len() && tags[j]) ==> exists|k: int| resolved(vs, q, tags, k))
            && forall|k: int| #[trigger] resolved(vs, q, tags, k) ==> 0 <= k < vs.len() && tags[k]
            && forall|j: int| 0 <= j < vs.len() && tags[j] ==> is_le(version_order(vs[j], vs[k])),
        (forall|j: int| 0 <= j < vs.len() ==> vs[j] != q && !prefix_match(q, vs[j])) && tag_of(q) is None
            ==> ((exists|j: int| 0 <= j < vs.len() && contains(vs[j], q)) ==> exists|k: int|
            resolved(vs, q, tags, k)) && forall|k: int| #[trigger] resolved(vs, q, tags, k) ==> 0 <= k
            < vs.len() && contains(vs[k], q) && forall|j: int| 0 <= j < k ==> !contains(vs[j], q),
{
    let ex = exact_flags(vs, q);
    let pf = prefix_flags(vs, q);
    let ct = contains_flags(vs, q);
    if exists|j: int| 0 <= j < vs.len() && vs[j] == q {
        let j = choose|j: int| 0 <= j < vs.len() && vs[j] == q;
        assert(ex[j]);
        lemma_first_exists(ex, j);
        let k = choose|k: int| is_first(ex, k);
        assert(resolved(vs, q, tags, k));
        assert forall|k: int| #[trigger] resolved(vs, q, tags, k) implies 0 <= k < vs.len() && vs[k] == q
            && forall|j: int| 0 <= j < k ==> vs[j] != q by {
            assert(ex[k]);
            assert forall|j: int| 0 <= j < k implies vs[j] != q by {
                assert(!ex[j]);
            }
        }
    }
    if (forall|j: int| 0 <= j < vs.len() ==> vs[j] != q) {
        assert(!any_flag(ex));
        if exists|j: int| 0 <= j < vs.len() && prefix_match(q, vs[j]) {
            let j = choose|j: int| 0 <= j < vs.len() && prefix_match(q, vs[j]);
            assert(pf[j]);
            lemma_best_exists(vs, pf, j);
            let k = choose|k: int| is_best(vs, pf, k);
            assert(resolved(vs, q, tags, k));
            assert forall|k: int| #[trigger] resolved(vs, q, tags, k) implies 0 <= k < vs.len() && prefix_match(q, vs[k])
                && forall|j: int| 0 <= j < vs.len() && prefix_match(q, vs[j]) ==> is_le(
                version_order(vs[j], vs[k]),
            ) by {
                assert(pf[k]);
                assert forall|j: int| 0 <= j < vs.len() && prefix_match(q, vs[j]) implies is_le(
                    version_order(vs[j], vs[k]),
                ) by {
                    assert(pf[j]);
                }
            }
        }
    }
    if (forall|j: int| 0 <= j < vs.len() ==> vs[j] != q && !prefix_match(q, vs[j])) {
        assert(!any_flag(ex));
        assert(!any_flag(pf)) by {
            if any_flag(pf) {
                let j = choose|j: int| 0 <= j < pf.len() && pf[j];
                assert(prefix_match(q, vs[j]));
            }
        }
        if tag_of(q) is Some {
            if exists|j: int| 0 <= j < vs.len() && tags[j] {
                let j = choose|j: int| 0 <= j < vs.len() && tags[j];
                lemma_best_exists(vs, tags, j);
                let k = choose|k: int| is_best(vs, tags, k);
                assert(resolved(vs, q, tags, k));
            }
        } else {
            if exists|j: int| 0 <= j < vs.len() && contains(vs[j], q) {
                let j = choose|j: int| 0 <= j < vs.len() && contains(vs[j], q);
                assert(ct[j]);
                lemma_first_exists(ct, j);
                let k = choose|k: int| is_first(ct, k);
                assert(resolved(vs, q, tags, k));
            }
            assert forall|k: int| #[trigger] resolved(vs, q, tags, k) implies 0 <= k < vs.len() && contains(vs[k], q)
                && forall|j: int| 0 <= j < k ==> !contains(vs[j], q) by {
                assert(ct[k]);
                assert forall|j: int| 0 <= j < k implies !contains(vs[j], q) by {
                    assert(!ct[j]);
                }
            }
        }
    }
}

/// Some flag is set: the first one exists.
proof fn lemma_first_exists(f: Seq<bool>, j: int)
    requires
        0 <= j < f.len(),
        f[j],
    ensures
        exists|k: int| is_first(f, k),
    decreases j,
{
    if exists|i: int| 0 <= i < j && f[i] {
        let i = choose|i: int| 0 <= i < j && f[i];
        lemma_first_exists(f, i);
    } else {
        assert(is_first(f, j));
    }
}

/// What each tag asks of a candidate: `latest` nothing; by the version
/// string alone, `lts` that it mentions "lts" in any case and `stable` that
/// it has no pre-release `-`; with metadata, `lts` the flag or an `lts`
/// label and `stable` a `stable` label or no `-`.
pub proof fn lemma_tag_meaning(vs: Seq<Seq<char>>, ms: Seq<AvailableVersion>, q: Seq<char>)
    ensures
        forall|j: int| 0 <= j < vs.len() ==> match tag_of(q) {
            Some(ResolveTag::Latest) => #[trigger] string_tags(vs, q)[j],
            Some(ResolveTag::Lts) => string_tags(vs, q)[j] == contains(lower(vs[j]), "lts"@),
            Some(ResolveTag::Stable) => string_tags(vs, q)[j] == !vs[j].contains('-'),
            None => !string_tags(vs, q)[j],
        },
        forall|j: int| 0 <= j < ms.len() ==> match tag_of(q) {
            Some(ResolveTag::Latest) => #[trigger] meta_tags(ms, q)[j],
            Some(ResolveTag::Lts) => meta_tags(ms, q)[j] == (ms[j].lts || label_is(ms[j].labels@, "lts"@)),
            Some(ResolveTag::Stable) => meta_tags(ms, q)[j] == (label_is(ms[j].labels@, "stable"@)
                || !ms[j].version@.contains('-')),
            None => !meta_tags(ms, q)[j],
        },
{
    assert forall|j: int| 0 <= j < vs.len() implies has_char(vs[j], '-') == vs[j].contains('-') by {
        if vs[j].contains('-') {
            let i = choose|i: int| 0 <= i < vs[j].len() && vs[j][i] == '-';
            assert(has_char(vs[j], '-'));
        }
    }
    assert forall|j: int| 0 <= j < ms.len() implies has_char(ms[j].version@, '-') == ms[j].version@.contains('-') by {
        if ms[j].version@.contains('-') {
            let i = choose|i: int| 0 <= i < ms[j].version@.len() && ms[j].version@[i] == '-';
            assert(has_char(ms[j].version@, '-'));
        }
    }
}

/// A query is a prefix of a version only at a segment boundary: `22`
/// matches `22.11.0` and `22-rc1` (and `22` itself), not `220.1`.
pub proof fn lemma_prefix_at_boundary(q: Seq<char>, rest: Seq<char>, c: char)
    requires
        q.len() > 0,
        q[0] != 'v',
    ensures
        prefix_match(q, q),
        c == '.' || c == '-' ==> prefix_match(q, q + seq![c] + rest),
        is_ascii_digit(c) ==> !prefix_match(q, q + seq![c] + rest),
{
    let v = q + seq![c] + rest;
    assert(lead_len(q, char_pred('v')) == 0);
    assert(v[0] == q[0]);
    assert(lead_len(v, char_pred('v')) == 0);
    assert(strip_lead(q, 'v') =~= q);
    assert(strip_lead(v, 'v') =~= v);
    assert(v.take(q.len() as int) =~= q);
    assert(v[q.len() as int] == c);
    assert(q.take(q.len() as int) =~= q);
}

} // verus!
