//! Environment composition over three scopes: PATH pieces go before the
//! inherited PATH (higher scopes first), variables of higher scopes override
//! those of lower ones, and a variable can be unset.

use vstd::prelude::*;

use crate::strmap::{distinct_keys, inserted, lemma_lookup_at, lemma_lookup_inserted, lookup, StrMap};
use crate::text::{
    append, chars_of, chars_of_string, eq, join, join_v, lower, strip_trail, strip_trail_v,
    to_lower, to_string, views,
};

verus! {

/// The three scopes a version can be selected in.
#[derive(Debug, Clone, Copy, PartialEq, Eq, Structural)]
pub enum UseScope {
    Global,
    Project,
    Session,
}

pub open spec fn scope_name(s: UseScope) -> Seq<char> {
    match s {
        UseScope::Global => "global"@,
        UseScope::Project => "project"@,
        UseScope::Session => "session"@,
    }
}

impl UseScope {
    pub fn as_str(&self) -> (r: &'static str)
        ensures
            r@ == scope_name(*self),
    {
        match self {
            UseScope::Global => "global",
            UseScope::Project => "project",
            UseScope::Session => "session",
        }
    }
}

// ---------------------------------------------------------------------------
// Path equivalence
// ---------------------------------------------------------------------------

/// How paths of the host compare: on Windows separators `\` and `/` are the
/// same, a trailing separator does not count and case is ignored; elsewhere
/// paths compare exactly.
#[derive(Debug, Clone, Copy, PartialEq, Eq, Structural)]
pub enum PathStyle {
    Windows,
    Unix,
}

/// `std::path::MAIN_SEPARATOR`, documented as `\` on Windows and `/` on Unix.
#[verifier::external_body]
fn main_separator() -> (r: char)
    ensures
        r == '/' || r == '\\',
{
    std::path::MAIN_SEPARATOR
}

/// The path style that goes with a main separator: `\` is Windows.
pub fn style_of_separator(sep: char) -> (r: PathStyle)
    ensures
        r == style_of_sep(sep),
{
    if sep == '\\' {
        PathStyle::Windows
    } else {
        PathStyle::Unix
    }
}

/// The path style of the host, from its main separator (which of the two
/// the host has is not known here).
pub fn host_path_style() -> (r: PathStyle) {
    let sep = main_separator();
    style_of_separator(sep)
}

pub open spec fn style_of_sep(sep: char) -> PathStyle {
    if sep == '\\' {
        PathStyle::Windows
    } else {
        PathStyle::Unix
    }
}

/// Every `\` turned into `/`.
pub open spec fn slashes(s: Seq<char>) -> Seq<char> {
    s.map_values(|c: char| if c == '\\' { '/' } else { c })
}

/// What two paths are compared by.
pub open spec fn path_key(style: PathStyle, s: Seq<char>) -> Seq<char> {
    match style {
        PathStyle::Windows => lower(strip_trail(slashes(s), '/')),
        PathStyle::Unix => s,
    }
}

/// Two paths name the same directory.
pub open spec fn path_equiv(style: PathStyle, a: Seq<char>, b: Seq<char>) -> bool {
    path_key(style, a) == path_key(style, b)
}

fn slashes_v(s: &Vec<char>) -> (r: Vec<char>)
    ensures
        r@ == slashes(s@),
{
    let mut r: Vec<char> = Vec::new();
    let mut i: usize = 0;
    while i < s.len()
        invariant
            i <= s.len(),
            r@ == slashes(s@.take(i as int)),
        decreases s.len() - i,
    {
        let c = if s[i] == '\\' {
            '/'
        } else {
            s[i]
        };
        r.push(c);
        assert(slashes(s@.take(i + 1)) =~= slashes(s@.take(i as int)).push(c));
        i = i + 1;
    }
    assert(s@.take(s.len() as int) =~= s@);
    r
}

fn path_key_v(style: PathStyle, s: &Vec<char>) -> (r: Vec<char>)
    ensures
        r@ == path_key(style, s@),
{
    match style {
        PathStyle::Windows => {
            let t = slashes_v(s);
            let u = strip_trail_v(&t, '/');
            to_lower(&u)
        },
        PathStyle::Unix => {
            let mut r: Vec<char> = Vec::new();
            append(&mut r, s);
            r
        },
    }
}

/// Whether two paths name the same directory under `style`.
pub fn path_eq_in(style: PathStyle, a: &str, b: &str) -> (r: bool)
    ensures
        r == path_equiv(style, a@, b@),
{
    let ka = path_key_v(style, &chars_of(a));
    let kb = path_key_v(style, &chars_of(b));
    eq(&ka, &kb)
}

/// Whether two paths name the same directory on this host.
pub fn path_eq(a: &str, b: &str) -> (r: bool)
    ensures
        r == path_equiv(PathStyle::Windows, a@, b@) || r == path_equiv(PathStyle::Unix, a@, b@),
{
    path_eq_in(host_path_style(), a, b)
}

// ---------------------------------------------------------------------------
// PATH pieces
// ---------------------------------------------------------------------------

pub open spec fn strs(v: Seq<String>) -> Seq<Seq<char>> {
    v.map_values(|s: String| s@)
}

/// Some piece of `ps` names the same directory as `p`.
pub open spec fn has_equiv(style: PathStyle, ps: Seq<Seq<char>>, p: Seq<char>) -> bool {
    exists|i: int| 0 <= i < ps.len() && path_equiv(style, ps[i], p)
}

/// No two pieces name the same directory.
pub open spec fn no_equiv_dups(style: PathStyle, ps: Seq<Seq<char>>) -> bool {
    forall|i: int, j: int| 0 <= i < j < ps.len() ==> !path_equiv(style, ps[i], ps[j])
}

/// `p` put first, unless an equivalent piece is there already.
pub open spec fn prepended(style: PathStyle, ps: Seq<Seq<char>>, p: Seq<char>) -> Seq<Seq<char>> {
    if has_equiv(style, ps, p) {
        ps
    } else {
        seq![p] + ps
    }
}

/// `p` put last, unless an equivalent piece is there already.
pub open spec fn appended(style: PathStyle, ps: Seq<Seq<char>>, p: Seq<char>) -> Seq<Seq<char>> {
    if has_equiv(style, ps, p) {
        ps
    } else {
        ps.push(p)
    }
}

/// The non-empty pieces of `ps` in order, each kept only when no equivalent
/// piece came before it.
pub open spec fn dedup_paths(style: PathStyle, ps: Seq<Seq<char>>) -> Seq<Seq<char>>
    decreases ps.len(),
{
    if ps.len() == 0 {
        Seq::empty()
    } else {
        let acc = dedup_paths(style, ps.drop_last());
        let p = ps.last();
        if p.len() > 0 && !has_equiv(style, acc, p) {
            acc.push(p)
        } else {
            acc
        }
    }
}

/// Adding a piece twice is adding it once.
pub proof fn lemma_prepend_idempotent(style: PathStyle, ps: Seq<Seq<char>>, p: Seq<char>)
    ensures
        prepended(style, prepended(style, ps, p), p) == prepended(style, ps, p),
        appended(style, appended(style, ps, p), p) == appended(style, ps, p),
{
    let a = prepended(style, ps, p);
    if !has_equiv(style, ps, p) {
        assert(a[0] == p);
        assert(has_equiv(style, a, p));
    }
    let b = appended(style, ps, p);
    if !has_equiv(style, ps, p) {
        assert(b[ps.len() as int] == p);
        assert(has_equiv(style, b, p));
    }
}

/// After a piece is added, an equivalent piece is present, and a list
/// without equivalent duplicates stays so.
pub proof fn lemma_added_path_present(style: PathStyle, ps: Seq<Seq<char>>, p: Seq<char>)
    ensures
        has_equiv(style, prepended(style, ps, p), p),
        has_equiv(style, appended(style, ps, p), p),
        no_equiv_dups(style, ps) ==> no_equiv_dups(style, prepended(style, ps, p)),
        no_equiv_dups(style, ps) ==> no_equiv_dups(style, appended(style, ps, p)),
{
    let a = prepended(style, ps, p);
    let b = appended(style, ps, p);
    if !has_equiv(style, ps, p) {
        assert(a[0] == p);
        assert(b[ps.len() as int] == p);
        if no_equiv_dups(style, ps) {
            assert forall|i: int, j: int| 0 <= i < j < a.len() implies !path_equiv(
                style,
                a[i],
                a[j],
            ) by {
                if i == 0 {
                    assert(a[j] == ps[j - 1]);
                } else {
                    assert(a[i] == ps[i - 1] && a[j] == ps[j - 1]);
                }
            }
            assert forall|i: int, j: int| 0 <= i < j < b.len() implies !path_equiv(
                style,
                b[i],
                b[j],
            ) by {
                if j == ps.len() {
                    assert(b[i] == ps[i]);
                } else {
                    assert(b[i] == ps[i] && b[j] == ps[j]);
                }
            }
        }
    }
}

/// The merged PATH pieces are non-empty, free of equivalent duplicates, and
/// each non-empty piece of the input has an equivalent among them.
pub proof fn lemma_dedup_paths(style: PathStyle, ps: Seq<Seq<char>>)
    ensures
        no_equiv_dups(style, dedup_paths(style, ps)),
        forall|i: int|
            0 <= i < dedup_paths(style, ps).len() ==> (#[trigger] dedup_paths(style, ps)[i]).len()
                > 0,
        forall|i: int|
            0 <= i < ps.len() && (#[trigger] ps[i]).len() > 0 ==> has_equiv(
                style,
                dedup_paths(style, ps),
                ps[i],
            ),
        forall|i: int|
            0 <= i < dedup_paths(style, ps).len() ==> ps.contains(
                #[trigger] dedup_paths(style, ps)[i],
            ),
    decreases ps.len(),
{
    if ps.len() > 0 {
        let prev = ps.drop_last();
        lemma_dedup_paths(style, prev);
        let acc = dedup_paths(style, prev);
        let p = ps.last();
        let d = dedup_paths(style, ps);
        assert forall|i: int| 0 <= i < ps.len() && (#[trigger] ps[i]).len() > 0 implies has_equiv(
            style,
            d,
            ps[i],
        ) by {
            if i < prev.len() {
                assert(prev[i] == ps[i]);
                let w = choose|k: int| 0 <= k < acc.len() && path_equiv(style, acc[k], prev[i]);
                assert(d[w] == acc[w]);
            } else if p.len() > 0 && !has_equiv(style, acc, p) {
                assert(d[acc.len() as int] == p);
            }
        }
        assert forall|i: int| 0 <= i < d.len() implies ps.contains(#[trigger] d[i]) by {
            if i < acc.len() {
                assert(d[i] == acc[i]);
                let w = choose|k: int| 0 <= k < prev.len() && prev[k] == acc[i];
                assert(ps[w] == prev[w]);
            } else {
                assert(ps[ps.len() - 1] == p);
            }
        }
        if p.len() > 0 && !has_equiv(style, acc, p) {
            assert forall|i: int, j: int| 0 <= i < j < d.len() implies !path_equiv(
                style,
                d[i],
                d[j],
            ) by {
                if j == acc.len() {
                    assert(d[i] == acc[i]);
                } else {
                    assert(d[i] == acc[i] && d[j] == acc[j]);
                }
            }
        }
    }
}

/// Merging puts the pieces of the higher scope first: the merge of `a + b`
/// starts with the merge of `a`.
pub proof fn lemma_dedup_prefix(style: PathStyle, a: Seq<Seq<char>>, b: Seq<Seq<char>>)
    ensures
        dedup_paths(style, a + b).len() >= dedup_paths(style, a).len(),
        dedup_paths(style, a + b).take(dedup_paths(style, a).len() as int) == dedup_paths(style, a),
    decreases b.len(),
{
    if b.len() == 0 {
        assert(a + b =~= a);
        assert(dedup_paths(style, a).take(dedup_paths(style, a).len() as int) =~= dedup_paths(
            style,
            a,
        ));
    } else {
        lemma_dedup_prefix(style, a, b.drop_last());
        assert((a + b).drop_last() =~= a + b.drop_last());
        let prev = dedup_paths(style, a + b.drop_last());
        let n = dedup_paths(style, a).len() as int;
        let cur = dedup_paths(style, a + b);
        assert(cur.take(n) =~= prev.take(n));
    }
}

// ---------------------------------------------------------------------------
// Variables
// ---------------------------------------------------------------------------

pub open spec fn opt_str(o: Option<String>) -> Option<Seq<char>> {
    match o {
        Some(s) => Some(s@),
        None => None,
    }
}

/// Variables to set (`Some`) or unset (`None`), each name once, in the order
/// they were first set.
pub struct EnvVars {
    entries: Vec<(String, Option<String>)>,
}

impl EnvVars {
    pub closed spec fn pairs(&self) -> Seq<(Seq<char>, Option<Seq<char>>)> {
        self.entries@.map_values(|p: (String, Option<String>)| (p.0@, opt_str(p.1)))
    }

    #[verifier::type_invariant]
    closed spec fn wf(&self) -> bool {
        distinct_keys(self.pairs())
    }

    pub fn new() -> (m: EnvVars)
        ensures
            m.pairs() == Seq::<(Seq<char>, Option<Seq<char>>)>::empty(),
    {
        let m = EnvVars { entries: Vec::new() };
        assert(m.pairs() =~= Seq::<(Seq<char>, Option<Seq<char>>)>::empty());
        m
    }

    pub fn len(&self) -> (n: usize)
        ensures
            n == self.pairs().len(),
            distinct_keys(self.pairs()),
    {
        proof {
            use_type_invariant(self);
        }
        self.entries.len()
    }

    /// The name and setting of entry `i`.
    pub fn entry(&self, i: usize) -> (r: (&String, &Option<String>))
        requires
            i < self.pairs().len(),
        ensures
            r.0@ == self.pairs()[i as int].0,
            opt_str(*r.1) == self.pairs()[i as int].1,
    {
        let e = &self.entries[i];
        (&e.0, &e.1)
    }

    fn position(&self, k: &str) -> (r: Option<usize>)
        ensures
            match r {
                Some(i) => i < self.pairs().len() && self.pairs()[i as int].0 == k@,
                None => forall|i: int| 0 <= i < self.pairs().len() ==> self.pairs()[i].0 != k@,
            },
    {
        let kc = chars_of(k);
        let mut i: usize = 0;
        while i < self.entries.len()
            invariant
                i <= self.entries.len(),
                kc@ == k@,
                forall|j: int| 0 <= j < i ==> self.pairs()[j].0 != k@,
            decreases self.entries.len() - i,
        {
            let ec = chars_of_string(&self.entries[i].0);
            if eq(&ec, &kc) {
                return Some(i);
            }
            i = i + 1;
        }
        None
    }

    /// The setting of `k`: `Some(None)` when it is unset.
    pub fn get(&self, k: &str) -> (r: Option<&Option<String>>)
        ensures
            match r {
                Some(v) => lookup(self.pairs(), k@) == Some(opt_str(*v)),
                None => lookup(self.pairs(), k@) is None,
            },
    {
        proof {
            use_type_invariant(self);
        }
        match self.position(k) {
            Some(i) => {
                proof {
                    lemma_lookup_at(self.pairs(), i as int);
                }
                Some(&self.entries[i].1)
            },
            None => None,
        }
    }

    /// Sets `k` to `v` (`None`: unset).
    pub fn set(&mut self, k: String, v: Option<String>)
        ensures
            final(self).pairs() == inserted(old(self).pairs(), k@, opt_str(v)),
            distinct_keys(final(self).pairs()),
    {
        proof {
            use_type_invariant(&*self);
        }
        let ghost e = self.pairs();
        let ghost ov = opt_str(v);
        proof {
            lemma_lookup_inserted(e, k@, ov, k@);
        }
        match self.position(k.as_str()) {
            Some(i) => {
                proof {
                    let c = choose|j: int| 0 <= j < e.len() && e[j].0 == k@;
                    if c != i as int {
                        if c < i {
                            assert(e[c].0 != e[i as int].0);
                        } else {
                            assert(e[i as int].0 != e[c].0);
                        }
                    }
                }
                let mut entries: Vec<(String, Option<String>)> = Vec::new();
                std::mem::swap(&mut entries, &mut self.entries);
                let (old_k, _old_v) = entries.remove(i);
                entries.insert(i, (old_k, v));
                proof {
                    assert(entries@.map_values(
                        |p: (String, Option<String>)| (p.0@, opt_str(p.1)),
                    ) =~= e.update(i as int, (k@, ov)));
                }
                self.entries = entries;
            },
            None => {
                let mut entries: Vec<(String, Option<String>)> = Vec::new();
                std::mem::swap(&mut entries, &mut self.entries);
                entries.push((k, v));
                proof {
                    assert(entries@.map_values(
                        |p: (String, Option<String>)| (p.0@, opt_str(p.1)),
                    ) =~= e.push((k@, ov)));
                }
                self.entries = entries;
            },
        }
    }
}

/// The settings of `e` after those of `o` are applied in order.
pub open spec fn set_all(
    e: Seq<(Seq<char>, Option<Seq<char>>)>,
    o: Seq<(Seq<char>, Option<Seq<char>>)>,
) -> Seq<(Seq<char>, Option<Seq<char>>)>
    decreases o.len(),
{
    if o.len() == 0 {
        e
    } else {
        let prev = set_all(e, o.drop_last());
        inserted(prev, o.last().0, o.last().1)
    }
}

/// The setting `lookup` gives in `o`, else the one in `e`.
pub open spec fn overridden<V>(e: Seq<(Seq<char>, V)>, o: Seq<(Seq<char>, V)>, k: Seq<char>) -> Option<
    V,
> {
    match lookup(o, k) {
        Some(v) => Some(v),
        None => lookup(e, k),
    }
}

proof fn lemma_lookup_drop_last<V>(o: Seq<(Seq<char>, V)>, k: Seq<char>)
    requires
        distinct_keys(o),
        o.len() > 0,
    ensures
        distinct_keys(o.drop_last()),
        lookup(o, k) == (if o.last().0 == k {
            Some(o.last().1)
        } else {
            lookup(o.drop_last(), k)
        }),
{
    let d = o.drop_last();
    assert forall|i: int, j: int| 0 <= i < j < d.len() implies d[i].0 != d[j].0 by {
        assert(d[i] == o[i] && d[j] == o[j]);
    }
    if o.last().0 == k {
        lemma_lookup_at(o, o.len() - 1);
    } else if exists|i: int| 0 <= i < d.len() && d[i].0 == k {
        let w = choose|i: int| 0 <= i < d.len() && d[i].0 == k;
        lemma_lookup_at(d, w);
        assert(o[w] == d[w]);
        lemma_lookup_at(o, w);
    } else {
        assert(!exists|i: int| 0 <= i < o.len() && o[i].0 == k) by {
            if exists|i: int| 0 <= i < o.len() && o[i].0 == k {
                let w = choose|i: int| 0 <= i < o.len() && o[i].0 == k;
                if w < d.len() {
                    assert(d[w] == o[w]);
                }
            }
        }
    }
}

/// Variables of the higher scope override those of the lower one; the
/// others stay; names stay distinct.
pub proof fn lemma_set_all_lookup(
    e: Seq<(Seq<char>, Option<Seq<char>>)>,
    o: Seq<(Seq<char>, Option<Seq<char>>)>,
    k: Seq<char>,
)
    requires
        distinct_keys(e),
        distinct_keys(o),
    ensures
        distinct_keys(set_all(e, o)),
        lookup(set_all(e, o), k) == overridden(e, o, k),
    decreases o.len(),
{
    if o.len() > 0 {
        lemma_lookup_drop_last(o, k);
        lemma_set_all_lookup(e, o.drop_last(), k);
        lemma_lookup_inserted(set_all(e, o.drop_last()), o.last().0, o.last().1, k);
    }
}

// ---------------------------------------------------------------------------
// Envs
// ---------------------------------------------------------------------------

/// An environment: variables, and PATH pieces (higher priority first).
pub struct Envs {
    pub vars: EnvVars,
    pub paths: Vec<String>,
    pub style: PathStyle,
}

/// The separator of PATH entries.
pub open spec fn path_sep(style: PathStyle) -> Seq<char> {
    match style {
        PathStyle::Windows => ";"@,
        PathStyle::Unix => ":"@,
    }
}

/// The PATH value: the pieces, then the inherited PATH when it is not empty.
pub open spec fn path_value(style: PathStyle, ps: Seq<Seq<char>>, existing: Seq<char>) -> Seq<char> {
    join(
        if existing.len() > 0 {
            ps.push(existing)
        } else {
            ps
        },
        path_sep(style),
    )
}

/// What a child process gets for `k`: the set value, or the PATH value
/// under both `PATH` and `Path` when that is not empty.
pub open spec fn env_entry(
    vars: Seq<(Seq<char>, Option<Seq<char>>)>,
    pv: Seq<char>,
    k: Seq<char>,
) -> Option<Seq<char>> {
    if pv.len() > 0 && (k == "PATH"@ || k == "Path"@) {
        Some(pv)
    } else {
        match lookup(vars, k) {
            Some(Some(v)) => Some(v),
            _ => None,
        }
    }
}

/// One step of the PATH merge: `p` is added unless it is empty or an
/// equivalent piece is there already.
fn add_piece(merged: &mut Vec<String>, style: PathStyle, p: &String)
    ensures
        strs(final(merged)@) == (if p@.len() > 0 && !has_equiv(style, strs(old(merged)@), p@) {
            strs(old(merged)@).push(p@)
        } else {
            strs(old(merged)@)
        }),
{
    let mut present = false;
    let mut k: usize = 0;
    while k < merged.len()
        invariant
            k <= merged.len(),
            !present ==> forall|m: int| 0 <= m < k ==> !path_equiv(style, merged@[m]@, p@),
            present ==> has_equiv(style, strs(merged@), p@),
        decreases merged.len() - k,
    {
        if path_eq_in(style, merged[k].as_str(), p.as_str()) {
            assert(strs(merged@)[k as int] == merged@[k as int]@);
            present = true;
        }
        k = k + 1;
    }
    proof {
        if !present && has_equiv(style, strs(merged@), p@) {
            let w = choose|m: int|
                0 <= m < strs(merged@).len() && path_equiv(style, strs(merged@)[m], p@);
            assert(strs(merged@)[w] == merged@[w]@);
        }
    }
    if !p.as_str().is_empty() && !present {
        let ghost before = strs(merged@);
        merged.push(p.clone());
        assert(strs(merged@) =~= before.push(p@));
    }
}

impl Envs {
    /// An empty environment with the host's path style.
    pub fn new() -> (e: Envs)
        ensures
            e.vars.pairs().len() == 0,
            e.paths@.len() == 0,
    {
        Envs { vars: EnvVars::new(), paths: Vec::new(), style: host_path_style() }
    }

    /// An empty environment with the given path style.
    pub fn with_style(style: PathStyle) -> (e: Envs)
        ensures
            e.vars.pairs().len() == 0,
            e.paths@.len() == 0,
            e.style == style,
    {
        Envs { vars: EnvVars::new(), paths: Vec::new(), style }
    }

    /// Sets `key` to `value`; gives the environment back for chaining.
    pub fn var(&mut self, key: &str, value: &str) -> (r: &mut Envs)
        ensures
            r.vars.pairs() == inserted(old(self).vars.pairs(), key@, Some(value@)),
            r.paths == old(self).paths,
            r.style == old(self).style,
            *final(self) == *final(r),
    {
        self.vars.set(to_string(&chars_of(key)), Some(to_string(&chars_of(value))));
        self
    }

    /// Marks `key` for removal from the inherited environment.
    pub fn unset(&mut self, key: &str) -> (r: &mut Envs)
        ensures
            r.vars.pairs() == inserted(old(self).vars.pairs(), key@, None::<Seq<char>>),
            r.paths == old(self).paths,
            r.style == old(self).style,
            *final(self) == *final(r),
    {
        self.vars.set(to_string(&chars_of(key)), None);
        self
    }

    fn has_path(&self, p: &str) -> (r: bool)
        ensures
            r == has_equiv(self.style, strs(self.paths@), p@),
    {
        let mut i: usize = 0;
        while i < self.paths.len()
            invariant
                i <= self.paths.len(),
                forall|j: int| 0 <= j < i ==> !path_equiv(self.style, self.paths@[j]@, p@),
            decreases self.paths.len() - i,
        {
            if path_eq_in(self.style, self.paths[i].as_str(), p) {
                assert(strs(self.paths@)[i as int] == self.paths@[i as int]@);
                return true;
            }
            i = i + 1;
        }
        proof {
            if has_equiv(self.style, strs(self.paths@), p@) {
                let w = choose|k: int|
                    0 <= k < strs(self.paths@).len() && path_equiv(
                        self.style,
                        strs(self.paths@)[k],
                        p@,
                    );
                assert(strs(self.paths@)[w] == self.paths@[w]@);
            }
        }
        false
    }

    /// Puts a PATH piece first, unless an equivalent one is present.
    pub fn prepend_path(&mut self, path: &str) -> (r: &mut Envs)
        ensures
            strs(r.paths@) == prepended(old(self).style, strs(old(self).paths@), path@),
            r.vars == old(self).vars,
            r.style == old(self).style,
            *final(self) == *final(r),
    {
        if !self.has_path(path) {
            let ghost before = strs(self.paths@);
            self.paths.insert(0, to_string(&chars_of(path)));
            assert(strs(self.paths@) =~= seq![path@] + before);
        }
        self
    }

    /// Puts a PATH piece last, unless an equivalent one is present.
    pub fn append_path(&mut self, path: &str) -> (r: &mut Envs)
        ensures
            strs(r.paths@) == appended(old(self).style, strs(old(self).paths@), path@),
            r.vars == old(self).vars,
            r.style == old(self).style,
            *final(self) == *final(r),
    {
        if !self.has_path(path) {
            let ghost before = strs(self.paths@);
            self.paths.push(to_string(&chars_of(path)));
            assert(strs(self.paths@) =~= before.push(path@));
        }
        self
    }

    /// Merges `other`, of higher priority, into `self`: its PATH pieces go
    /// first, its variables override.
    pub fn extend(&mut self, other: &Envs)
        ensures
            final(self).vars.pairs() == set_all(old(self).vars.pairs(), other.vars.pairs()),
            strs(final(self).paths@) == dedup_paths(
                old(self).style,
                strs(other.paths@) + strs(old(self).paths@),
            ),
            final(self).style == old(self).style,
    {
        let n = other.vars.len();
        let ghost e0 = self.vars.pairs();
        let ghost o = other.vars.pairs();
        let mut i: usize = 0;
        while i < n
            invariant
                i <= n,
                n == o.len(),
                o == other.vars.pairs(),
                self.vars.pairs() == set_all(e0, o.take(i as int)),
                self.paths@ == old(self).paths@,
                self.style == old(self).style,
            decreases n - i,
        {
            let (k, v) = other.vars.entry(i);
            let vc = match v {
                Some(s) => Some(s.clone()),
                None => None,
            };
            self.vars.set(k.clone(), vc);
            assert(o.take(i + 1).drop_last() =~= o.take(i as int));
            i = i + 1;
        }
        assert(o.take(n as int) =~= o);
        let ghost a = strs(other.paths@);
        let ghost b = strs(self.paths@);
        let mut merged: Vec<String> = Vec::new();
        let mut j: usize = 0;
        while j < other.paths.len()
            invariant
                j <= other.paths.len(),
                a == strs(other.paths@),
                strs(merged@) == dedup_paths(self.style, a.take(j as int)),
            decreases other.paths.len() - j,
        {
            assert(a.take(j + 1).drop_last() =~= a.take(j as int));
            add_piece(&mut merged, self.style, &other.paths[j]);
            j = j + 1;
        }
        assert(a.take(a.len() as int) =~= a);
        let mut j: usize = 0;
        while j < self.paths.len()
            invariant
                j <= self.paths.len(),
                b == strs(self.paths@),
                strs(merged@) == dedup_paths(self.style, a + b.take(j as int)),
            decreases self.paths.len() - j,
        {
            assert((a + b.take(j + 1)).drop_last() =~= a + b.take(j as int));
            assert((a + b.take(j + 1)).last() == self.paths@[j as int]@);
            add_piece(&mut merged, self.style, &self.paths[j]);
            j = j + 1;
        }
        assert(b.take(b.len() as int) =~= b);
        self.paths = merged;
    }

    /// The PATH value given to a child process, from the inherited one.
    pub fn path_var(&self, existing: &str) -> (r: String)
        ensures
            r@ == path_value(self.style, strs(self.paths@), existing@),
    {
        let mut parts: Vec<Vec<char>> = Vec::new();
        let mut i: usize = 0;
        while i < self.paths.len()
            invariant
                i <= self.paths.len(),
                views(parts@) == strs(self.paths@).take(i as int),
            decreases self.paths.len() - i,
        {
            let ghost before = views(parts@);
            parts.push(chars_of_string(&self.paths[i]));
            assert(views(parts@) =~= before.push(self.paths@[i as int]@));
            assert(strs(self.paths@).take(i + 1) =~= strs(self.paths@).take(i as int).push(
                self.paths@[i as int]@,
            ));
            i = i + 1;
        }
        assert(strs(self.paths@).take(self.paths.len() as int) =~= strs(self.paths@));
        let ex = chars_of(existing);
        if ex.len() > 0 {
            let ghost before = views(parts@);
            parts.push(ex);
            assert(views(parts@) =~= before.push(existing@));
        }
        let sep = match self.style {
            PathStyle::Windows => chars_of(";"),
            PathStyle::Unix => chars_of(":"),
        };
        to_string(&join_v(&parts, &sep))
    }

    /// The variables a child process gets, with PATH merged into one entry
    /// (written as both `PATH` and `Path`); unset variables are left out.
    pub fn as_map(&self, existing_path: &str) -> (m: StrMap)
        ensures
            distinct_keys(m.pairs()),
            forall|k: Seq<char>|
                #[trigger] lookup(m.pairs(), k) == env_entry(
                    self.vars.pairs(),
                    path_value(self.style, strs(self.paths@), existing_path@),
                    k,
                ),
    {
        let mut m = StrMap::new();
        let n = self.vars.len();
        let ghost e = self.vars.pairs();
        let mut i: usize = 0;
        while i < n
            invariant
                i <= n,
                n == e.len(),
                e == self.vars.pairs(),
                distinct_keys(e),
                distinct_keys(m.pairs()),
                forall|k: Seq<char>|
                    #[trigger] lookup(m.pairs(), k) == match lookup(e.take(i as int), k) {
                        Some(Some(v)) => Some(v),
                        _ => None,
                    },
            decreases n - i,
        {
            let (k, v) = self.vars.entry(i);
            let ghost t = e.take(i + 1);
            assert(t.drop_last() =~= e.take(i as int));
            assert(distinct_keys(t)) by {
                assert forall|a: int, b: int| 0 <= a < b < t.len() implies t[a].0 != t[b].0 by {
                    assert(t[a] == e[a] && t[b] == e[b]);
                }
            }
            let ghost m0 = m.pairs();
            match v {
                Some(s) => {
                    m.insert(k.clone(), s.clone());
                    assert forall|q: Seq<char>| #[trigger]
                        lookup(m.pairs(), q) == match lookup(t, q) {
                            Some(Some(v)) => Some(v),
                            _ => None,
                        } by {
                        lemma_lookup_inserted(m0, k@, s@, q);
                        lemma_lookup_drop_last(t, q);
                    }
                },
                None => {
                    assert forall|q: Seq<char>| #[trigger]
                        lookup(m.pairs(), q) == match lookup(t, q) {
                            Some(Some(v)) => Some(v),
                            _ => None,
                        } by {
                        lemma_lookup_drop_last(t, q);
                    }
                },
            }
            i = i + 1;
        }
        assert(e.take(n as int) =~= e);
        let pv = self.path_var(existing_path);
        if !pv.as_str().is_empty() {
            let ghost m0 = m.pairs();
            m.insert(to_string(&chars_of("PATH")), pv.clone());
            let ghost m1 = m.pairs();
            m.insert(to_string(&chars_of("Path")), pv);
            assert forall|q: Seq<char>| #[trigger]
                lookup(m.pairs(), q) == env_entry(
                    e,
                    path_value(self.style, strs(self.paths@), existing_path@),
                    q,
                ) by {
                lemma_lookup_inserted(m0, "PATH"@, pv@, q);
                lemma_lookup_inserted(m1, "Path"@, pv@, q);
            }
        } else {
            assert(pv@.len() == 0);
        }
        m
    }

    pub fn is_empty(&self) -> (r: bool)
        ensures
            r == (self.vars.pairs().len() == 0 && self.paths@.len() == 0),
    {
        self.vars.len() == 0 && self.paths.len() == 0
    }
}

/// The PATH pieces of environments merged from lowest to highest priority.
pub open spec fn scope_paths(style: PathStyle, l: Seq<Envs>) -> Seq<Seq<char>>
    decreases l.len(),
{
    if l.len() == 0 {
        Seq::empty()
    } else {
        dedup_paths(style, strs(l.last().paths@) + scope_paths(style, l.drop_last()))
    }
}

/// The variables of environments merged from lowest to highest priority.
pub open spec fn scope_vars(l: Seq<Envs>) -> Seq<(Seq<char>, Option<Seq<char>>)>
    decreases l.len(),
{
    if l.len() == 0 {
        Seq::empty()
    } else {
        set_all(scope_vars(l.drop_last()), l.last().vars.pairs())
    }
}

/// The setting of `k` in the highest-priority environment that has one.
pub open spec fn last_setting(l: Seq<Envs>, k: Seq<char>) -> Option<Option<Seq<char>>>
    decreases l.len(),
{
    if l.len() == 0 {
        None
    } else {
        match lookup(l.last().vars.pairs(), k) {
            Some(v) => Some(v),
            None => last_setting(l.drop_last(), k),
        }
    }
}

/// Across scopes, a variable takes the value of the highest-priority scope
/// that sets or unsets it.
pub proof fn lemma_scope_vars_lookup(l: Seq<Envs>, k: Seq<char>)
    requires
        forall|i: int| 0 <= i < l.len() ==> distinct_keys(#[trigger] l[i].vars.pairs()),
    ensures
        distinct_keys(scope_vars(l)),
        lookup(scope_vars(l), k) == last_setting(l, k),
    decreases l.len(),
{
    if l.len() > 0 {
        let d = l.drop_last();
        assert forall|i: int| 0 <= i < d.len() implies distinct_keys(#[trigger] d[i].vars.pairs()) by {
            assert(d[i] == l[i]);
        }
        lemma_scope_vars_lookup(d, k);
        assert(distinct_keys(l[l.len() - 1].vars.pairs()));
        lemma_set_all_lookup(scope_vars(d), l.last().vars.pairs(), k);
    }
}

/// Merges environments given from lowest to highest priority: PATH pieces
/// of higher scopes go first, variables of higher scopes override.
pub fn merge_by_scope_priority(envs_list: &[Envs]) -> (r: Envs)
    ensures
        r.vars.pairs() == scope_vars(envs_list@),
        strs(r.paths@) == scope_paths(r.style, envs_list@),
{
    let mut acc = Envs::new();
    let ghost style = acc.style;
    let mut i: usize = 0;
    assert(strs(acc.paths@) =~= Seq::<Seq<char>>::empty());
    assert(acc.vars.pairs() =~= Seq::<(Seq<char>, Option<Seq<char>>)>::empty());
    while i < envs_list.len()
        invariant
            i <= envs_list.len(),
            acc.style == style,
            acc.vars.pairs() == scope_vars(envs_list@.take(i as int)),
            strs(acc.paths@) == scope_paths(style, envs_list@.take(i as int)),
        decreases envs_list.len() - i,
    {
        acc.extend(&envs_list[i]);
        assert(envs_list@.take(i + 1).drop_last() =~= envs_list@.take(i as int));
        i = i + 1;
    }
    assert(envs_list@.take(envs_list.len() as int) =~= envs_list@);
    acc
}

} // verus!
