//! Usage statistics: how often each tool version was used and by which
//! projects, to help free disk space. A use is recorded when an installation
//! or a global switch succeeds.

use vstd::prelude::*;

use crate::sort::{
    desc_i_le, desc_le, is_perm, lemma_sorted_transfer, sorted_by, stable_order, stably_sorted,
    Desc, DescI,
};
use crate::strmap::{distinct_keys, inserted, lemma_lookup_inserted, lookup, KeyMap};
use crate::text::{append_str, chars_of, chars_of_string, eq, to_string};

verus! {

/// The uses of one tool version.
pub struct UsageRecord {
    pub count: u32,
    pub first_used_at: i64,
    pub last_used_at: i64,
    /// Uses per project.
    pub project_hits: KeyMap<u32>,
}

/// All recorded uses, under `tool@version`.
pub struct UsageStore {
    pub versions: KeyMap<UsageRecord>,
}

/// The key of a tool version.
pub open spec fn usage_key(tool: Seq<char>, version: Seq<char>) -> Seq<char> {
    tool + "@"@ + version
}

/// One more, stopping at the largest `u32`.
pub open spec fn sat_inc(n: u32) -> u32 {
    if n == u32::MAX {
        n
    } else {
        (n + 1) as u32
    }
}

/// The per-project uses after one more use by `project`.
pub open spec fn hits_after(hits: Seq<(Seq<char>, u32)>, project: Option<Seq<char>>) -> Seq<
    (Seq<char>, u32),
> {
    match project {
        Some(p) => inserted(
            hits,
            p,
            sat_inc(
                match lookup(hits, p) {
                    Some(n) => n,
                    None => 0u32,
                },
            ),
        ),
        None => hits,
    }
}

impl UsageStore {
    pub fn new() -> (s: UsageStore)
        ensures
            s.versions.pairs().len() == 0,
    {
        UsageStore { versions: KeyMap::new() }
    }
}

/// `new` is `old` after one more use of `tool@version` at `now`, by
/// `project` if given: that record counts one more use, keeps its first-use
/// time (or takes `now` when it is new), takes `now` as its last use and one
/// more use by the project; every other record stays.
pub open spec fn use_recorded(
    old: UsageStore,
    new: UsageStore,
    tool: Seq<char>,
    version: Seq<char>,
    project: Option<Seq<char>>,
    now: i64,
) -> bool {
    let k = usage_key(tool, version);
    let prev = lookup(old.versions.pairs(), k);
    &&& distinct_keys(new.versions.pairs())
    &&& forall|q: Seq<char>|
        q != k ==> #[trigger] lookup(new.versions.pairs(), q) == lookup(old.versions.pairs(), q)
    &&& lookup(new.versions.pairs(), k) matches Some(r) && {
        &&& r.count == sat_inc(
            match prev {
                Some(p) => p.count,
                None => 0u32,
            },
        )
        &&& r.first_used_at == match prev {
            Some(p) => p.first_used_at,
            None => now,
        }
        &&& r.last_used_at == now
        &&& r.project_hits.pairs() == hits_after(
            match prev {
                Some(p) => p.project_hits.pairs(),
                None => Seq::empty(),
            },
            project,
        )
    }
}

fn fresh_record(now: i64) -> (r: UsageRecord)
    ensures
        r.count == 0,
        r.first_used_at == now,
        r.last_used_at == 0,
        r.project_hits.pairs().len() == 0,
{
    UsageRecord { count: 0, first_used_at: now, last_used_at: 0, project_hits: KeyMap::new() }
}

/// Records one use of `tool@version` at time `now` (seconds since the
/// epoch), by `project` if given. Nothing is recorded for an empty tool or
/// version name.
pub fn record_use(store: &mut UsageStore, tool: &str, version: &str, project: Option<&str>, now: i64)
    ensures
        tool@.len() == 0 || version@.len() == 0 ==> final(store).versions.pairs() == old(
            store,
        ).versions.pairs(),
        tool@.len() > 0 && version@.len() > 0 ==> {
            let k = usage_key(tool@, version@);
            let prev = lookup(old(store).versions.pairs(), k);
            &&& distinct_keys(final(store).versions.pairs())
            &&& forall|q: Seq<char>|
                q != k ==> #[trigger] lookup(final(store).versions.pairs(), q) == lookup(
                    old(store).versions.pairs(),
                    q,
                )
            &&& lookup(final(store).versions.pairs(), k) matches Some(r) && {
                &&& r.count == sat_inc(
                    match prev {
                        Some(p) => p.count,
                        None => 0u32,
                    },
                )
                &&& r.first_used_at == match prev {
                    Some(p) => p.first_used_at,
                    None => now,
                }
                &&& r.last_used_at == now
                &&& r.project_hits.pairs() == hits_after(
                    match prev {
                        Some(p) => p.project_hits.pairs(),
                        None => Seq::empty(),
                    },
                    match project {
                        Some(p) => Some(p@),
                        None => None,
                    },
                )
            }
        },
        tool@.len() > 0 && version@.len() > 0 ==> use_recorded(
            *old(store),
            *final(store),
            tool@,
            version@,
            match project {
                Some(p) => Some(p@),
                None => None,
            },
            now,
        ),
{
    if tool.is_empty() || version.is_empty() {
        return;
    }
    let mut kc: Vec<char> = chars_of(tool);
    append_str(&mut kc, "@");
    append_str(&mut kc, version);
    let key = to_string(&kc);
    let ghost k = key@;
    let ghost e0 = store.versions.pairs();
    let ghost st0 = *store;
    let fr = fresh_record(now);
    let ghost frg = fr;
    let old = store.versions.insert(to_string(&kc), fr);
    let ghost e1 = store.versions.pairs();
    let mut rec = match old {
        Some(r) => r,
        None => fresh_record(now),
    };
    rec.count = rec.count.saturating_add(1);
    rec.last_used_at = now;
    match project {
        Some(p) => {
            let h: u32 = match rec.project_hits.get(p) {
                Some(n) => *n,
                None => 0,
            };
            rec.project_hits.insert(to_string(&chars_of(p)), h.saturating_add(1));
        },
        None => {},
    }
    let ghost r = rec;
    store.versions.insert(key, rec);
    assert forall|q: Seq<char>| q != k implies #[trigger] lookup(store.versions.pairs(), q) == lookup(
        e0,
        q,
    ) by {
        lemma_lookup_inserted(e0, k, frg, q);
        lemma_lookup_inserted(e1, k, r, q);
    }
    proof {
        lemma_lookup_inserted(e1, k, r, k);
        let pj = match project {
            Some(p) => Some(p@),
            None => None,
        };
        let prevh = match lookup(e0, k) {
            Some(pp) => pp.project_hits.pairs(),
            None => Seq::<(Seq<char>, u32)>::empty(),
        };
        assert(r.project_hits.pairs() =~= hits_after(prevh, pj));
        assert(use_recorded(st0, *store, tool@, version@, pj, now));
    }
}

/// A project's uses of a version.
pub struct ProjectHit {
    pub project: String,
    pub hits: u32,
}

/// The statistics of one installed version.
pub struct VersionUsage {
    pub version: String,
    pub count: u32,
    pub first_used_at: Option<i64>,
    pub last_used_at: Option<i64>,
    /// Whole days since the last use (none if never used).
    pub last_used_days_ago: Option<i64>,
    pub disk_bytes: u64,
    pub installed: bool,
    pub is_current: bool,
    pub projects: Vec<ProjectHit>,
}

/// The statistics of one tool.
pub struct ToolUsage {
    pub tool: String,
    pub display: String,
    pub total_count: u32,
    pub disk_bytes: u64,
    pub versions: Vec<VersionUsage>,
    pub icon: Option<String>,
}

/// The statistics panel.
pub struct UsageStats {
    /// Number of tool versions ever recorded.
    pub total_versions: usize,
    /// Disk use of all installed versions, in bytes.
    pub total_disk_bytes: u64,
    pub tool_usage: Vec<ToolUsage>,
}

/// Whether a cached version list has expired: never with a negative TTL,
/// always with a zero TTL, else once `ttl` seconds have passed since it was
/// fetched.
pub fn is_expired(fetched_at: i64, ttl: i64, now: i64) -> (r: bool)
    ensures
        r == (ttl >= 0 && (ttl == 0 || now - fetched_at >= ttl)),
{
    if ttl < 0 {
        return false;
    }
    if ttl == 0 {
        return true;
    }
    (now as i128) - (fetched_at as i128) >= (ttl as i128)
}

// ---------------------------------------------------------------------------
// Statistics
// ---------------------------------------------------------------------------

/// A tool with its installed versions and their disk use.
pub struct ToolInstalls {
    pub name: String,
    pub display: String,
    pub icon: Option<String>,
    /// The version the configuration selects.
    pub current: Option<String>,
    /// Installed versions with their size in bytes.
    pub versions: Vec<(String, u64)>,
}

/// The record of a tool version, if it was ever used.
pub open spec fn record_of(store: UsageStore, tool: Seq<char>, version: Seq<char>) -> Option<UsageRecord> {
    lookup(store.versions.pairs(), usage_key(tool, version))
}

pub open spec fn count_of(r: Option<UsageRecord>) -> u32 {
    match r {
        Some(x) => x.count,
        None => 0,
    }
}

/// Whole days between `last` and `now` (none if never used).
pub open spec fn days_since(r: Option<UsageRecord>, now: i64) -> Option<i64> {
    match r {
        Some(x) => if x.last_used_at > 0 {
            Some(
                (if now - x.last_used_at > 0 {
                    (now - x.last_used_at) / 86400
                } else {
                    0
                }) as i64,
            )
        } else {
            None
        },
        None => None,
    }
}

pub open spec fn hit_view(h: ProjectHit) -> (Seq<char>, u32) {
    (h.project@, h.hits)
}

pub open spec fn hit_counts(e: Seq<(Seq<char>, u32)>) -> Seq<u64> {
    e.map_values(|p: (Seq<char>, u32)| p.1 as u64)
}

pub open spec fn hits_of(r: Option<UsageRecord>) -> Seq<(Seq<char>, u32)> {
    match r {
        Some(x) => x.project_hits.pairs(),
        None => Seq::empty(),
    }
}

pub open spec fn opt_str(o: Option<String>) -> Option<Seq<char>> {
    match o {
        Some(s) => Some(s@),
        None => None,
    }
}

/// `u` is the line of an installed version: its uses, first and last use,
/// days since, size, whether it is current, and its projects by uses.
pub open spec fn version_usage_ok(
    store: UsageStore,
    tool: Seq<char>,
    current: Option<Seq<char>>,
    version: Seq<char>,
    disk: u64,
    now: i64,
    u: VersionUsage,
) -> bool {
    let r = record_of(store, tool, version);
    &&& u.version@ == version
    &&& u.count == count_of(r)
    &&& u.first_used_at == match r {
        Some(x) => Some(x.first_used_at),
        None => None::<i64>,
    }
    &&& u.last_used_at == match r {
        Some(x) => Some(x.last_used_at),
        None => None::<i64>,
    }
    &&& u.last_used_days_ago == days_since(r, now)
    &&& u.disk_bytes == disk
    &&& u.installed
    &&& u.is_current == (current == Some(version))
    &&& stably_sorted(
        desc_le(),
        hit_counts(hits_of(r)),
        hits_of(r),
        u.projects@.map_values(|h: ProjectHit| hit_view(h)),
    )
}

/// The statistics line of a version reports when it was first used, which
/// later uses do not change: after a first use at `t1` and another at `t2`
/// (each as `record_use` leaves the store), the line gives `t1` as the first
/// use, `t2` as the last and two uses.
pub proof fn lemma_first_use_reported(
    s0: UsageStore,
    s1: UsageStore,
    s2: UsageStore,
    tool: Seq<char>,
    version: Seq<char>,
    p1: Option<Seq<char>>,
    p2: Option<Seq<char>>,
    t1: i64,
    t2: i64,
    current: Option<Seq<char>>,
    disk: u64,
    now: i64,
    u: VersionUsage,
)
    requires
        record_of(s0, tool, version) is None,
        use_recorded(s0, s1, tool, version, p1, t1),
        use_recorded(s1, s2, tool, version, p2, t2),
        version_usage_ok(s2, tool, current, version, disk, now, u),
    ensures
        u.first_used_at == Some(t1),
        u.last_used_at == Some(t2),
        u.count == 2,
        0 < t2 <= now ==> u.last_used_days_ago == Some(((now - t2) / 86400) as i64),
{
}

/// A version never used shows no use: no count, no first or last use, no
/// days since.
pub proof fn lemma_unused_version(
    store: UsageStore,
    tool: Seq<char>,
    version: Seq<char>,
    current: Option<Seq<char>>,
    disk: u64,
    now: i64,
    u: VersionUsage,
)
    requires
        record_of(store, tool, version) is None,
        version_usage_ok(store, tool, current, version, disk, now, u),
    ensures
        u.count == 0,
        u.first_used_at is None,
        u.last_used_at is None,
        u.last_used_days_ago is None,
        u.disk_bytes == disk,
{
}

/// The last use of a version for ordering (0 when never used).
pub open spec fn last_key(store: UsageStore, tool: Seq<char>, version: Seq<char>) -> i64 {
    match record_of(store, tool, version) {
        Some(x) => x.last_used_at,
        None => 0,
    }
}

pub open spec fn last_keys(store: UsageStore, tool: Seq<char>, vs: Seq<(String, u64)>) -> Seq<i64> {
    vs.map_values(|v: (String, u64)| last_key(store, tool, v.0@))
}

pub open spec fn count_sum(store: UsageStore, tool: Seq<char>, vs: Seq<(String, u64)>) -> nat
    decreases vs.len(),
{
    if vs.len() == 0 {
        0
    } else {
        count_sum(store, tool, vs.drop_last()) + (count_of(record_of(store, tool, vs.last().0@)) as nat)
    }
}

pub open spec fn disk_sum(vs: Seq<(String, u64)>) -> nat
    decreases vs.len(),
{
    if vs.len() == 0 {
        0
    } else {
        disk_sum(vs.drop_last()) + (vs.last().1 as nat)
    }
}

pub open spec fn all_disk(ts: Seq<ToolInstalls>) -> nat
    decreases ts.len(),
{
    if ts.len() == 0 {
        0
    } else {
        all_disk(ts.drop_last()) + disk_sum(ts.last().versions@)
    }
}

/// `u` is the line of a tool: its totals, and its installed versions, most
/// recently used first.
pub open spec fn tool_usage_ok(store: UsageStore, t: ToolInstalls, now: i64, u: ToolUsage) -> bool {
    let vs = t.versions@;
    &&& u.tool@ == t.name@
    &&& u.display@ == t.display@
    &&& u.icon == t.icon
    &&& u.total_count == count_sum(store, t.name@, vs)
    &&& u.disk_bytes == disk_sum(vs)
    &&& exists|p: Seq<usize>|
        #![trigger sorted_by(desc_i_le(), last_keys(store, t.name@, vs), p)]
        is_perm(p, vs.len()) && sorted_by(desc_i_le(), last_keys(store, t.name@, vs), p)
            && u.versions@.len() == vs.len() && forall|i: int|
            0 <= i < vs.len() ==> version_usage_ok(
                store,
                t.name@,
                opt_str(t.current),
                vs[#[trigger] p[i] as int].0@,
                vs[p[i] as int].1,
                now,
                u.versions@[i],
            )
}

/// The statistics of one installed version.
fn version_usage(store: &UsageStore, tool: &String, current: &Option<String>, version: &String, disk: u64, now: i64) -> (u: VersionUsage)
    requires
        now >= 0,
    ensures
        version_usage_ok(*store, tool@, opt_str(*current), version@, disk, now, u),
{
    let mut kc: Vec<char> = chars_of_string(tool);
    append_str(&mut kc, "@");
    append_str(&mut kc, version.as_str());
    let key = to_string(&kc);
    let rec = store.versions.get(key.as_str());
    let is_current = match current {
        Some(c) => eq(&chars_of_string(c), &chars_of_string(version)),
        None => false,
    };
    match rec {
        None => {
            let projects: Vec<ProjectHit> = Vec::new();
            proof {
                let e = Seq::<(Seq<char>, u32)>::empty();
                assert(projects@.map_values(|h: ProjectHit| hit_view(h)) =~= e);
                assert(is_perm(Seq::<usize>::empty(), 0));
                assert(sorted_by(desc_le(), hit_counts(e), Seq::<usize>::empty()));
            }
            VersionUsage {
                version: version.clone(),
                count: 0,
                first_used_at: None,
                last_used_at: None,
                last_used_days_ago: None,
                disk_bytes: disk,
                installed: true,
                is_current,
                projects,
            }
        },
        Some(r) => {
            let days: Option<i64> = if r.last_used_at > 0 {
                let diff: i64 = now - r.last_used_at;
                if diff > 0 {
                    Some(diff / 86400)
                } else {
                    Some(0)
                }
            } else {
                None
            };
            let n = r.project_hits.len();
            let ghost hp = r.project_hits.pairs();
            let mut keys: Vec<Desc> = Vec::new();
            let mut i: usize = 0;
            while i < n
                invariant
                    i <= n,
                    n == hp.len(),
                    hp == r.project_hits.pairs(),
                    keys@.len() == i,
                    forall|j: int| 0 <= j < i ==> (#[trigger] keys@[j]).0 == hit_counts(hp)[j],
                decreases n - i,
            {
                let (_p, h) = r.project_hits.entry(i);
                keys.push(Desc(*h as u64));
                i = i + 1;
            }
            let p = stable_order(&keys);
            let mut projects: Vec<ProjectHit> = Vec::new();
            let mut j: usize = 0;
            while j < p.len()
                invariant
                    j <= p.len(),
                    is_perm(p@, n as nat),
                    n == hp.len(),
                    hp == r.project_hits.pairs(),
                    projects@.len() == j,
                    forall|m: int| 0 <= m < j ==> hit_view(#[trigger] projects@[m]) == hp[p@[m] as int],
                decreases p.len() - j,
            {
                let (name, h) = r.project_hits.entry(p[j]);
                projects.push(ProjectHit { project: name.clone(), hits: *h });
                j = j + 1;
            }
            proof {
                lemma_sorted_transfer(keys@, hit_counts(hp), desc_le(), p@);
                assert(projects@.map_values(|h: ProjectHit| hit_view(h)).len() == hp.len());
                assert(forall|m: int|
                    0 <= m < projects@.len() ==> projects@.map_values(|h: ProjectHit| hit_view(h))[m]
                        == hp[#[trigger] p@[m] as int]);
            }
            VersionUsage {
                version: version.clone(),
                count: r.count,
                first_used_at: Some(r.first_used_at),
                last_used_at: Some(r.last_used_at),
                last_used_days_ago: days,
                disk_bytes: disk,
                installed: true,
                is_current,
                projects,
            }
        },
    }
}

fn record_count(store: &UsageStore, tool: &String, version: &String) -> (r: (u32, i64))
    ensures
        r.0 == count_of(record_of(*store, tool@, version@)),
        r.1 == last_key(*store, tool@, version@),
{
    let mut kc: Vec<char> = chars_of_string(tool);
    append_str(&mut kc, "@");
    append_str(&mut kc, version.as_str());
    let key = to_string(&kc);
    match store.versions.get(key.as_str()) {
        Some(r) => (r.count, r.last_used_at),
        None => (0, 0),
    }
}

/// A tool's use count, adding up its installed versions.
fn tool_count(store: &UsageStore, t: &ToolInstalls) -> (r: u64)
    requires
        count_sum(*store, t.name@, t.versions@) <= u32::MAX,
    ensures
        r == count_sum(*store, t.name@, t.versions@),
{
    let ghost vs = t.versions@;
    let mut total: u64 = 0;
    let mut i: usize = 0;
    while i < t.versions.len()
        invariant
            i <= t.versions.len(),
            vs == t.versions@,
            total == count_sum(*store, t.name@, vs.take(i as int)),
            count_sum(*store, t.name@, vs) <= u32::MAX,
        decreases t.versions.len() - i,
    {
        assert(vs.take(i + 1).drop_last() =~= vs.take(i as int));
        proof {
            lemma_count_sum_prefix(*store, t.name@, vs, i + 1);
        }
        let (c, _l) = record_count(store, &t.name, &t.versions[i].0);
        total = total + c as u64;
        i = i + 1;
    }
    assert(vs.take(t.versions.len() as int) =~= vs);
    total
}

proof fn lemma_count_sum_prefix(store: UsageStore, tool: Seq<char>, vs: Seq<(String, u64)>, n: int)
    requires
        0 <= n <= vs.len(),
    ensures
        count_sum(store, tool, vs.take(n)) <= count_sum(store, tool, vs),
    decreases vs.len() - n,
{
    if n < vs.len() {
        lemma_count_sum_prefix(store, tool, vs, n + 1);
        assert(vs.take(n + 1).drop_last() =~= vs.take(n));
    } else {
        assert(vs.take(n) =~= vs);
    }
}

proof fn lemma_disk_sum_prefix(vs: Seq<(String, u64)>, n: int)
    requires
        0 <= n <= vs.len(),
    ensures
        disk_sum(vs.take(n)) <= disk_sum(vs),
    decreases vs.len() - n,
{
    if n < vs.len() {
        lemma_disk_sum_prefix(vs, n + 1);
        assert(vs.take(n + 1).drop_last() =~= vs.take(n));
    } else {
        assert(vs.take(n) =~= vs);
    }
}

proof fn lemma_all_disk_prefix(ts: Seq<ToolInstalls>, n: int)
    requires
        0 <= n <= ts.len(),
    ensures
        all_disk(ts.take(n)) <= all_disk(ts),
    decreases ts.len() - n,
{
    if n < ts.len() {
        lemma_all_disk_prefix(ts, n + 1);
        assert(ts.take(n + 1).drop_last() =~= ts.take(n));
    } else {
        assert(ts.take(n) =~= ts);
    }
}

proof fn lemma_tool_disk_bound(ts: Seq<ToolInstalls>, i: int)
    requires
        0 <= i < ts.len(),
    ensures
        disk_sum(ts[i].versions@) <= all_disk(ts),
{
    lemma_all_disk_prefix(ts, i + 1);
    assert(ts.take(i + 1).drop_last() =~= ts.take(i));
    assert(ts.take(i + 1).last() == ts[i]);
}

fn disk_total(vs: &Vec<(String, u64)>) -> (r: u64)
    requires
        disk_sum(vs@) <= u64::MAX,
    ensures
        r == disk_sum(vs@),
{
    let mut total: u64 = 0;
    let mut i: usize = 0;
    while i < vs.len()
        invariant
            i <= vs.len(),
            total == disk_sum(vs@.take(i as int)),
            disk_sum(vs@) <= u64::MAX,
        decreases vs.len() - i,
    {
        assert(vs@.take(i + 1).drop_last() =~= vs@.take(i as int));
        proof {
            lemma_disk_sum_prefix(vs@, i + 1);
        }
        total = total + vs[i].1;
        i = i + 1;
    }
    assert(vs@.take(vs.len() as int) =~= vs@);
    total
}

/// The statistics of one tool.
fn tool_usage(store: &UsageStore, t: &ToolInstalls, now: i64) -> (u: ToolUsage)
    requires
        now >= 0,
        count_sum(*store, t.name@, t.versions@) <= u32::MAX,
        disk_sum(t.versions@) <= u64::MAX,
    ensures
        tool_usage_ok(*store, *t, now, u),
{
    let ghost vs = t.versions@;
    let mut keys: Vec<DescI> = Vec::new();
    let mut i: usize = 0;
    while i < t.versions.len()
        invariant
            i <= t.versions.len(),
            vs == t.versions@,
            keys@.len() == i,
            forall|j: int| 0 <= j < i ==> (#[trigger] keys@[j]).0 == last_keys(*store, t.name@, vs)[j],
        decreases t.versions.len() - i,
    {
        let (_c, l) = record_count(store, &t.name, &t.versions[i].0);
        keys.push(DescI(l));
        i = i + 1;
    }
    let p = stable_order(&keys);
    let mut versions: Vec<VersionUsage> = Vec::new();
    let mut j: usize = 0;
    while j < p.len()
        invariant
            j <= p.len(),
            now >= 0,
            vs == t.versions@,
            is_perm(p@, vs.len()),
            versions@.len() == j,
            forall|m: int|
                0 <= m < j ==> version_usage_ok(
                    *store,
                    t.name@,
                    opt_str(t.current),
                    vs[#[trigger] p@[m] as int].0@,
                    vs[p@[m] as int].1,
                    now,
                    versions@[m],
                ),
        decreases p.len() - j,
    {
        let v = &t.versions[p[j]];
        let vu = version_usage(store, &t.name, &t.current, &v.0, v.1, now);
        versions.push(vu);
        j = j + 1;
    }
    let total_count = tool_count(store, t);
    let disk = disk_total(&t.versions);
    proof {
        lemma_sorted_transfer(keys@, last_keys(*store, t.name@, vs), desc_i_le(), p@);
    }
    let u = ToolUsage {
        tool: t.name.clone(),
        display: t.display.clone(),
        total_count: total_count as u32,
        disk_bytes: disk,
        versions,
        icon: t.icon.clone(),
    };
    assert(sorted_by(desc_i_le(), last_keys(*store, t.name@, vs), p@));
    u
}

pub open spec fn tool_counts(store: UsageStore, ts: Seq<ToolInstalls>) -> Seq<u64> {
    ts.map_values(|t: ToolInstalls| count_sum(store, t.name@, t.versions@) as u64)
}

/// The statistics panel: every tool by total uses (most used first), each
/// with its versions; the number of tool versions ever recorded; the disk
/// use of all installed versions. `now` is the time in seconds since the
/// epoch.
pub fn stats(store: &UsageStore, tools: &[ToolInstalls], now: i64) -> (r: UsageStats)
    requires
        now >= 0,
        forall|i: int|
            0 <= i < tools@.len() ==> count_sum(*store, (#[trigger] tools@[i]).name@, tools@[i].versions@)
                <= u32::MAX,
        all_disk(tools@) <= u64::MAX,
    ensures
        r.total_versions == store.versions.pairs().len(),
        r.total_disk_bytes == all_disk(tools@),
        exists|p: Seq<usize>|
            #![trigger sorted_by(desc_le(), tool_counts(*store, tools@), p)]
            is_perm(p, tools@.len()) && sorted_by(desc_le(), tool_counts(*store, tools@), p)
                && r.tool_usage@.len() == tools@.len() && forall|i: int|
                0 <= i < tools@.len() ==> tool_usage_ok(
                    *store,
                    tools@[#[trigger] p[i] as int],
                    now,
                    r.tool_usage@[i],
                ),
{
    let ghost ts = tools@;
    let mut keys: Vec<Desc> = Vec::new();
    let mut total_disk: u64 = 0;
    let mut i: usize = 0;
    while i < tools.len()
        invariant
            i <= tools.len(),
            ts == tools@,
            forall|k: int|
                0 <= k < ts.len() ==> count_sum(*store, (#[trigger] ts[k]).name@, ts[k].versions@)
                    <= u32::MAX,
            all_disk(ts) <= u64::MAX,
            keys@.len() == i,
            forall|j: int| 0 <= j < i ==> (#[trigger] keys@[j]).0 == tool_counts(*store, ts)[j],
            total_disk == all_disk(ts.take(i as int)),
        decreases tools.len() - i,
    {
        let c = tool_count(store, &tools[i]);
        keys.push(Desc(c));
        proof {
            lemma_tool_disk_bound(ts, i as int);
            lemma_all_disk_prefix(ts, i + 1);
            assert(ts.take(i + 1).drop_last() =~= ts.take(i as int));
            assert(ts.take(i + 1).last() == ts[i as int]);
        }
        let d = disk_total(&tools[i].versions);
        total_disk = total_disk + d;
        i = i + 1;
    }
    assert(ts.take(tools.len() as int) =~= ts);
    let p = stable_order(&keys);
    let mut usage: Vec<ToolUsage> = Vec::new();
    let mut j: usize = 0;
    while j < p.len()
        invariant
            j <= p.len(),
            now >= 0,
            ts == tools@,
            is_perm(p@, ts.len()),
            forall|k: int|
                0 <= k < ts.len() ==> count_sum(*store, (#[trigger] ts[k]).name@, ts[k].versions@)
                    <= u32::MAX,
            all_disk(ts) <= u64::MAX,
            usage@.len() == j,
            forall|m: int| 0 <= m < j ==> tool_usage_ok(*store, ts[#[trigger] p@[m] as int], now, usage@[m]),
        decreases p.len() - j,
    {
        proof {
            lemma_tool_disk_bound(ts, p@[j as int] as int);
        }
        let tu = tool_usage(store, &tools[p[j]], now);
        usage.push(tu);
        j = j + 1;
    }
    proof {
        lemma_sorted_transfer(keys@, tool_counts(*store, ts), desc_le(), p@);
    }
    let r = UsageStats { total_versions: store.versions.len(), total_disk_bytes: total_disk, tool_usage: usage };
    assert(sorted_by(desc_le(), tool_counts(*store, ts), p@));
    r
}

} // verus!
