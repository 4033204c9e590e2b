//! What the pages show: log files newest first with level filtering, the
//! environment preview with its export script, and the home overview of
//! the variables each tool injects.

use vstd::prelude::*;

use crate::env::{strs, Envs};
use crate::sort::{
    desc_le, is_perm, lemma_sorted_transfer, sorted_by, sorted_stable, stable_order, stably_sorted,
    text_le_fn, Desc, RowKey, SortKey, TextKey,
};
use crate::strmap::{distinct_keys, StrMap};
use crate::text::{
    append, append_str, chars_of, chars_of_string, contains, contains_v, debug_quote, debug_str,
    dec_digits, decimal, eq, join, join_v, lines, lines_v, lower, starts_with, starts_with_v,
    to_lower, to_string, to_upper, trim, trim_v, upper, views,
};

verus! {

// ---------------------------------------------------------------------------
// Reordering
// ---------------------------------------------------------------------------

pub open spec fn seq_views(v: Seq<String>) -> Seq<Seq<char>> {
    v.map_values(|s: String| s@)
}

/// `items` taken in the order `p` gives.
fn permuted(items: &Vec<String>, p: &Vec<usize>) -> (r: Vec<String>)
    requires
        is_perm(p@, items@.len()),
    ensures
        r@.len() == p@.len(),
        forall|i: int| 0 <= i < r@.len() ==> r@[i]@ == items@[#[trigger] p@[i] as int]@,
{
    let mut r: Vec<String> = Vec::new();
    let mut i: usize = 0;
    while i < p.len()
        invariant
            i <= p.len(),
            is_perm(p@, items@.len()),
            r@.len() == i,
            forall|j: int| 0 <= j < i ==> r@[j]@ == items@[#[trigger] p@[j] as int]@,
        decreases p.len() - i,
    {
        r.push(items[p[i]].clone());
        i = i + 1;
    }
    r
}

proof fn lemma_sorted_witness<A, T>(
    le: spec_fn(A, A) -> bool,
    keys: Seq<A>,
    input: Seq<T>,
    out: Seq<T>,
    p: Seq<usize>,
)
    requires
        is_perm(p, input.len()),
        sorted_by(le, keys, p),
        out.len() == p.len(),
        forall|i: int| 0 <= i < out.len() ==> out[i] == input[#[trigger] p[i] as int],
    ensures
        stably_sorted(le, keys, input, out),
{
}

// ---------------------------------------------------------------------------
// Logs
// ---------------------------------------------------------------------------

/// A file of the log directory: its name, its modification time in
/// seconds since the epoch (0 when unknown) and its size in bytes.
pub struct LogEntry {
    pub name: String,
    pub mtime: u64,
    pub size: u64,
}

/// A log file as the settings page lists it.
pub struct LogFileInfo {
    pub name: String,
    pub size: u64,
    /// Seconds since the epoch.
    pub modified_at: i64,
}

pub open spec fn entry_info(e: LogEntry) -> (Seq<char>, u64, i64) {
    (e.name@, e.size, e.mtime as i64)
}

pub open spec fn info_view(f: LogFileInfo) -> (Seq<char>, u64, i64) {
    (f.name@, f.size, f.modified_at)
}

/// The log files: names starting with `envhive.log`, in directory order.
pub open spec fn log_candidates(es: Seq<LogEntry>) -> Seq<LogEntry>
    decreases es.len(),
{
    if es.len() == 0 {
        Seq::empty()
    } else if starts_with(es.last().name@, "envhive.log"@) {
        log_candidates(es.drop_last()).push(es.last())
    } else {
        log_candidates(es.drop_last())
    }
}

pub open spec fn entry_names(es: Seq<LogEntry>) -> Seq<Seq<char>> {
    es.map_values(|e: LogEntry| e.name@)
}

pub open spec fn entry_times(es: Seq<LogEntry>) -> Seq<u64> {
    es.map_values(|e: LogEntry| e.mtime)
}

/// The log files, newest first (files of the same time in directory order).
pub fn log_files(entries: &[LogEntry]) -> (r: Vec<String>)
    ensures
        stably_sorted(
            desc_le(),
            entry_times(log_candidates(entries@)),
            entry_names(log_candidates(entries@)),
            seq_views(r@),
        ),
{
    let mut names: Vec<String> = Vec::new();
    let mut keys: Vec<Desc> = Vec::new();
    let ghost es = entries@;
    let mut i: usize = 0;
    while i < entries.len()
        invariant
            i <= entries.len(),
            es == entries@,
            seq_views(names@) == entry_names(log_candidates(es.take(i as int))),
            keys@.len() == seq_views(names@).len(),
            forall|j: int| 0 <= j < keys@.len() ==> (#[trigger] keys@[j]).0 == entry_times(
                log_candidates(es.take(i as int)),
            )[j],
        decreases entries.len() - i,
    {
        let e = &entries[i];
        assert(es.take(i + 1).drop_last() =~= es.take(i as int));
        if starts_with_v(&chars_of_string(&e.name), &chars_of("envhive.log")) {
            let ghost bn = seq_views(names@);
            names.push(e.name.clone());
            keys.push(Desc(e.mtime));
            assert(seq_views(names@) =~= bn.push(e.name@));
        }
        i = i + 1;
    }
    assert(es.take(entries.len() as int) =~= es);
    let p = stable_order(&keys);
    let r = permuted(&names, &p);
    proof {
        let times = entry_times(log_candidates(es));
        lemma_sorted_transfer(keys@, times, desc_le(), p@);
        lemma_sorted_witness(desc_le(), times, seq_views(names@), seq_views(r@), p@);
    }
    r
}

/// The log files with their sizes and times, newest first (files of the
/// same time in directory order).
pub fn log_file_infos(entries: &[LogEntry]) -> (r: Vec<LogFileInfo>)
    ensures
        stably_sorted(
            desc_le(),
            entry_times(log_candidates(entries@)),
            log_candidates(entries@).map_values(|e: LogEntry| entry_info(e)),
            r@.map_values(|f: LogFileInfo| info_view(f)),
        ),
{
    let mut idx: Vec<usize> = Vec::new();
    let mut keys: Vec<Desc> = Vec::new();
    let ghost es = entries@;
    let mut i: usize = 0;
    while i < entries.len()
        invariant
            i <= entries.len(),
            es == entries@,
            idx@.len() == log_candidates(es.take(i as int)).len(),
            keys@.len() == idx@.len(),
            forall|j: int| 0 <= j < idx@.len() ==> (#[trigger] idx@[j]) < i,
            forall|j: int|
                0 <= j < idx@.len() ==> es[#[trigger] idx@[j] as int] == log_candidates(
                    es.take(i as int),
                )[j],
            forall|j: int| 0 <= j < keys@.len() ==> (#[trigger] keys@[j]).0 == entry_times(
                log_candidates(es.take(i as int)),
            )[j],
        decreases entries.len() - i,
    {
        let e = &entries[i];
        assert(es.take(i + 1).drop_last() =~= es.take(i as int));
        if starts_with_v(&chars_of_string(&e.name), &chars_of("envhive.log")) {
            idx.push(i);
            keys.push(Desc(e.mtime));
        }
        i = i + 1;
    }
    assert(es.take(entries.len() as int) =~= es);
    let ghost cands = log_candidates(es);
    let ghost infos = cands.map_values(|e: LogEntry| entry_info(e));
    let p = stable_order(&keys);
    let mut r: Vec<LogFileInfo> = Vec::new();
    let mut k: usize = 0;
    while k < p.len()
        invariant
            k <= p.len(),
            is_perm(p@, idx@.len()),
            idx@.len() == cands.len(),
            es == entries@,
            forall|j: int| 0 <= j < idx@.len() ==> (#[trigger] idx@[j]) < entries@.len(),
            forall|j: int| 0 <= j < idx@.len() ==> es[#[trigger] idx@[j] as int] == cands[j],
            infos == cands.map_values(|e: LogEntry| entry_info(e)),
            r@.len() == k,
            forall|j: int| 0 <= j < k ==> info_view(#[trigger] r@[j]) == infos[p@[j] as int],
        decreases p.len() - k,
    {
        let pk = p[k];
        assert(pk < idx@.len());
        let e = &entries[idx[pk]];
        let name = e.name.clone();
        assert(name@ == e.name@);
        assert(es[idx@[pk as int] as int] == cands[pk as int]);
        let info = LogFileInfo { name, size: e.size, modified_at: #[verifier::truncate] (e.mtime as i64) };
        assert(info_view(info) == infos[pk as int]);
        let ghost r0 = r@;
        r.push(info);
        assert forall|j: int| 0 <= j < k + 1 implies info_view(#[trigger] r@[j]) == infos[p@[j] as int] by {
            if j < k {
                assert(r@[j] == r0[j]);
            }
        }
        k = k + 1;
    }
    proof {
        let times = entry_times(cands);
        lemma_sorted_transfer(keys@, times, desc_le(), p@);
        let out = r@.map_values(|f: LogFileInfo| info_view(f));
        assert forall|j: int| 0 <= j < out.len() implies out[j] == infos[#[trigger] p@[j] as int] by {
            assert(info_view(r@[j]) == infos[p@[j] as int]);
        }
        lemma_sorted_witness(desc_le(), times, infos, out, p@);
    }
    r
}

/// The file to show: the one named, or the newest.
pub fn pick_log(files: &[String], file: Option<&str>) -> (r: Option<String>)
    ensures
        match file {
            Some(f) if f@.len() > 0 => match r {
                Some(n) => n@ == f@ && exists|i: int| 0 <= i < files@.len() && files@[i]@ == f@,
                None => forall|i: int| 0 <= i < files@.len() ==> files@[i]@ != f@,
            },
            _ => match r {
                Some(n) => files@.len() > 0 && n@ == files@[0]@,
                None => files@.len() == 0,
            },
        },
{
    match file {
        Some(f) => {
            if !f.is_empty() {
                let fc = chars_of(f);
                let mut i: usize = 0;
                while i < files.len()
                    invariant
                        i <= files.len(),
                        file == Some(f),
                        f@.len() > 0,
                        fc@ == f@,
                        forall|j: int| 0 <= j < i ==> files@[j]@ != f@,
                    decreases files.len() - i,
                {
                    if eq(&chars_of_string(&files[i]), &fc) {
                        assert(files@[i as int]@ == f@);
                        return Some(files[i].clone());
                    }
                    i = i + 1;
                }
                return None;
            }
        },
        None => {},
    }
    if files.len() > 0 {
        Some(files[0].clone())
    } else {
        None
    }
}

/// Where to start reading a log of `len` bytes so as to show at most
/// `limit` bytes of its end; none when the whole file fits.
pub fn tail_start(len: u64, limit: u64) -> (r: Option<u64>)
    ensures
        r == (if len > limit {
            Some((len - limit) as u64)
        } else {
            None::<u64>
        }),
{
    if len > limit {
        Some(len - limit)
    } else {
        None
    }
}

/// The end of a long log, marked as cut (with the whole size in KiB).
pub open spec fn cut_log(len: u64, tail: Seq<char>) -> Seq<char> {
    "…（截断，共 "@ + dec_digits((len / 1024) as nat) + "KB）\n"@ + tail
}

pub fn truncated_log(len: u64, tail: &str) -> (r: String)
    ensures
        r@ == cut_log(len, tail@),
{
    let mut m: Vec<char> = Vec::new();
    append_str(&mut m, "…（截断，共 ");
    append(&mut m, &decimal(len / 1024));
    append_str(&mut m, "KB）\n");
    append_str(&mut m, tail);
    to_string(&m)
}

/// The severity of a log line: 3 error, 2 warning, 1 info, 0 other.
pub open spec fn line_rank(l: Seq<char>) -> nat {
    if contains(l, " ERROR "@) || contains(l, " ERROR]"@) || starts_with(l, "ERROR"@) {
        3
    } else if contains(l, " WARN "@) || contains(l, " WARN]"@) {
        2
    } else if contains(l, " INFO "@) || contains(l, " INFO]"@) {
        1
    } else {
        0
    }
}

/// The least severity a level shows.
pub open spec fn level_rank(level: Seq<char>) -> nat {
    if level == "ERROR"@ {
        3
    } else if level == "WARN"@ {
        2
    } else if level == "INFO"@ {
        1
    } else {
        0
    }
}

/// The lines of at least severity `min`.
pub open spec fn lines_at_least(ls: Seq<Seq<char>>, min: nat) -> Seq<Seq<char>>
    decreases ls.len(),
{
    if ls.len() == 0 {
        Seq::empty()
    } else if line_rank(ls.last()) >= min {
        lines_at_least(ls.drop_last(), min).push(ls.last())
    } else {
        lines_at_least(ls.drop_last(), min)
    }
}

/// The log as shown for a level (`ALL` by default): `WARN` shows warnings
/// and errors, `ERROR` errors only; `ALL` or an empty level shows the text
/// as it is.
pub open spec fn log_for_level(raw: Seq<char>, level: Option<Seq<char>>) -> Seq<char> {
    let lv = upper(
        trim(
            match level {
                Some(l) => l,
                None => "ALL"@,
            },
        ),
    );
    if lv == "ALL"@ || lv.len() == 0 {
        raw
    } else {
        join(lines_at_least(lines(raw), level_rank(lv)), "\n"@)
    }
}

fn line_rank_v(l: &Vec<char>) -> (r: u8)
    ensures
        r as nat == line_rank(l@),
{
    if contains_v(l, &chars_of(" ERROR ")) || contains_v(l, &chars_of(" ERROR]"))
        || starts_with_v(l, &chars_of("ERROR")) {
        3
    } else if contains_v(l, &chars_of(" WARN ")) || contains_v(l, &chars_of(" WARN]")) {
        2
    } else if contains_v(l, &chars_of(" INFO ")) || contains_v(l, &chars_of(" INFO]")) {
        1
    } else {
        0
    }
}

pub fn filter_log_level(raw: &str, level: Option<&str>) -> (r: String)
    ensures
        r@ == log_for_level(
            raw@,
            match level {
                Some(l) => Some(l@),
                None => None,
            },
        ),
{
    let lv = match level {
        Some(l) => to_upper(&trim_v(&chars_of(l))),
        None => to_upper(&trim_v(&chars_of("ALL"))),
    };
    if eq(&lv, &chars_of("ALL")) || lv.len() == 0 {
        return to_string(&chars_of(raw));
    }
    let min: u8 = if eq(&lv, &chars_of("ERROR")) {
        3
    } else if eq(&lv, &chars_of("WARN")) {
        2
    } else if eq(&lv, &chars_of("INFO")) {
        1
    } else {
        0
    };
    let ls = lines_v(&chars_of(raw));
    let ghost all = views(ls@);
    let mut kept: Vec<Vec<char>> = Vec::new();
    let mut i: usize = 0;
    while i < ls.len()
        invariant
            i <= ls.len(),
            all == views(ls@),
            min as nat == level_rank(lv@),
            views(kept@) == lines_at_least(all.take(i as int), min as nat),
        decreases ls.len() - i,
    {
        assert(all.take(i + 1).drop_last() =~= all.take(i as int));
        assert(all.take(i + 1).last() == ls@[i as int]@);
        if line_rank_v(&ls[i]) >= min {
            let ghost before = views(kept@);
            kept.push(crate::text::slice_of(&ls[i], 0, ls[i].len()));
            assert(ls@[i as int]@.subrange(0, ls@[i as int]@.len() as int) =~= ls@[i as int]@);
            assert(views(kept@) =~= before.push(ls@[i as int]@));
        }
        i = i + 1;
    }
    assert(all.take(ls.len() as int) =~= all);
    to_string(&join_v(&kept, &chars_of("\n")))
}

// ---------------------------------------------------------------------------
// Environment preview
// ---------------------------------------------------------------------------

/// A variable as previewed: its value, or none when it is unset.
pub struct EnvDiff {
    pub key: String,
    pub value: Option<String>,
    pub source: String,
}

pub struct EnvPreview {
    pub path_entries: Vec<String>,
    pub vars: Vec<EnvDiff>,
    /// The environment as a bash script.
    pub export_script: String,
}

pub open spec fn opt_str(o: Option<String>) -> Option<Seq<char>> {
    match o {
        Some(s) => Some(s@),
        None => None,
    }
}

pub open spec fn diff_view(d: EnvDiff) -> (Seq<char>, Option<Seq<char>>) {
    (d.key@, opt_str(d.value))
}

/// The bash lines of a preview: PATH first (its pieces before the inherited
/// PATH), then each variable exported (value quoted) or unset.
pub open spec fn export_lines(paths: Seq<Seq<char>>, vars: Seq<(Seq<char>, Option<Seq<char>>)>) -> Seq<
    Seq<char>,
> {
    (if paths.len() > 0 {
        seq!["export PATH=\""@ + join(paths, ":"@) + ":${PATH:+$PATH}\""@]
    } else {
        Seq::empty()
    }) + vars.map_values(
        |v: (Seq<char>, Option<Seq<char>>)|
            match v.1 {
                Some(val) => "export "@ + v.0 + "="@ + debug_str(val),
                None => "unset "@ + v.0,
            },
    )
}

pub open spec fn pair_names<V>(e: Seq<(Seq<char>, V)>) -> Seq<Seq<char>> {
    e.map_values(|p: (Seq<char>, V)| p.0)
}

/// Text keys for names, with the fact that they compare as the names do.
fn text_keys(names: &Vec<Vec<char>>) -> (r: Vec<TextKey>)
    ensures
        r@.len() == names@.len(),
        forall|i: int| 0 <= i < r@.len() ==> (#[trigger] r@[i]).0@ == names@[i]@,
        forall|i: int, j: int|
            #![trigger r@[i].key_le(&r@[j])]
            0 <= i < r@.len() && 0 <= j < r@.len() ==> r@[i].key_le(&r@[j]) == text_le_fn()(
                views(names@)[i],
                views(names@)[j],
            ),
{
    let mut r: Vec<TextKey> = Vec::new();
    let mut i: usize = 0;
    while i < names.len()
        invariant
            i <= names.len(),
            r@.len() == i,
            forall|k: int| 0 <= k < i ==> (#[trigger] r@[k]).0@ == names@[k]@,
        decreases names.len() - i,
    {
        r.push(TextKey(crate::text::slice_of(&names[i], 0, names[i].len())));
        assert(names@[i as int]@.subrange(0, names@[i as int]@.len() as int) =~= names@[i as int]@);
        i = i + 1;
    }
    r
}

/// The preview of an environment: PATH pieces, the variables by name, and
/// the bash script that sets them.
pub fn preview_env(envs: &Envs) -> (r: EnvPreview)
    ensures
        r.path_entries@ == envs.paths@,
        stably_sorted(
            text_le_fn(),
            pair_names(envs.vars.pairs()),
            envs.vars.pairs(),
            r.vars@.map_values(|d: EnvDiff| diff_view(d)),
        ),
        forall|i: int| 0 <= i < r.vars@.len() ==> (#[trigger] r.vars@[i]).source@ == "global"@,
        r.export_script@ == join(
            export_lines(strs(envs.paths@), r.vars@.map_values(|d: EnvDiff| diff_view(d))),
            "\n"@,
        ),
{
    let n = envs.vars.len();
    let ghost pairs = envs.vars.pairs();
    let mut names: Vec<Vec<char>> = Vec::new();
    let mut i: usize = 0;
    while i < n
        invariant
            i <= n,
            n == pairs.len(),
            pairs == envs.vars.pairs(),
            views(names@) == pair_names(pairs).take(i as int),
        decreases n - i,
    {
        let (k, _v) = envs.vars.entry(i);
        let ghost before = views(names@);
        names.push(chars_of_string(k));
        assert(views(names@) =~= before.push(pairs[i as int].0));
        assert(pair_names(pairs).take(i + 1) =~= pair_names(pairs).take(i as int).push(pairs[i as int].0));
        i = i + 1;
    }
    assert(pair_names(pairs).take(n as int) =~= pair_names(pairs));
    let keys = text_keys(&names);
    let p = stable_order(&keys);
    let mut vars: Vec<EnvDiff> = Vec::new();
    let mut j: usize = 0;
    while j < p.len()
        invariant
            j <= p.len(),
            is_perm(p@, n as nat),
            n == pairs.len(),
            pairs == envs.vars.pairs(),
            vars@.len() == j,
            forall|m: int| 0 <= m < j ==> diff_view(#[trigger] vars@[m]) == pairs[p@[m] as int],
            forall|m: int| 0 <= m < j ==> (#[trigger] vars@[m]).source@ == "global"@,
        decreases p.len() - j,
    {
        let (k, v) = envs.vars.entry(p[j]);
        let value = match v {
            Some(s) => Some(s.clone()),
            None => None,
        };
        vars.push(EnvDiff { key: k.clone(), value, source: to_string(&chars_of("global")) });
        j = j + 1;
    }
    proof {
        lemma_sorted_transfer(keys@, pair_names(pairs), text_le_fn(), p@);
        lemma_sorted_witness(
            text_le_fn(),
            pair_names(pairs),
            pairs,
            vars@.map_values(|d: EnvDiff| diff_view(d)),
            p@,
        );
    }
    let mut lines_out: Vec<Vec<char>> = Vec::new();
    let ghost dv = vars@.map_values(|d: EnvDiff| diff_view(d));
    if envs.paths.len() > 0 {
        let mut ps: Vec<Vec<char>> = Vec::new();
        let mut k: usize = 0;
        while k < envs.paths.len()
            invariant
                k <= envs.paths.len(),
                views(ps@) == strs(envs.paths@).take(k as int),
            decreases envs.paths.len() - k,
        {
            let ghost before = views(ps@);
            ps.push(chars_of_string(&envs.paths[k]));
            assert(views(ps@) =~= before.push(envs.paths@[k as int]@));
            assert(strs(envs.paths@).take(k + 1) =~= strs(envs.paths@).take(k as int).push(
                envs.paths@[k as int]@,
            ));
            k = k + 1;
        }
        assert(strs(envs.paths@).take(envs.paths.len() as int) =~= strs(envs.paths@));
        let mut l: Vec<char> = Vec::new();
        append_str(&mut l, "export PATH=\"");
        append(&mut l, &join_v(&ps, &chars_of(":")));
        append_str(&mut l, ":${PATH:+$PATH}\"");
        lines_out.push(l);
    }
    let ghost head = views(lines_out@);
    let mut m: usize = 0;
    while m < vars.len()
        invariant
            m <= vars.len(),
            dv == vars@.map_values(|d: EnvDiff| diff_view(d)),
            views(lines_out@) == head + export_lines(Seq::empty(), dv).take(m as int),
        decreases vars.len() - m,
    {
        let d = &vars[m];
        let mut l: Vec<char> = Vec::new();
        match &d.value {
            Some(val) => {
                append_str(&mut l, "export ");
                append_str(&mut l, d.key.as_str());
                append_str(&mut l, "=");
                append(&mut l, &debug_quote(&chars_of_string(val)));
            },
            None => {
                append_str(&mut l, "unset ");
                append_str(&mut l, d.key.as_str());
            },
        }
        let ghost before = views(lines_out@);
        lines_out.push(l);
        proof {
            let el = export_lines(Seq::<Seq<char>>::empty(), dv);
            assert(el =~= Seq::<Seq<char>>::empty() + dv.map_values(
                |v: (Seq<char>, Option<Seq<char>>)|
                    match v.1 {
                        Some(val) => "export "@ + v.0 + "="@ + debug_str(val),
                        None => "unset "@ + v.0,
                    },
            ));
            assert(el.take(m + 1) =~= el.take(m as int).push(el[m as int]));
            assert(views(lines_out@) =~= before.push(el[m as int]));
        }
        m = m + 1;
    }
    proof {
        let el = export_lines(Seq::<Seq<char>>::empty(), dv);
        assert(el.take(vars.len() as int) =~= el);
        assert(export_lines(strs(envs.paths@), dv) =~= head + el);
    }
    let script = to_string(&join_v(&lines_out, &chars_of("\n")));
    EnvPreview { path_entries: envs.paths.clone(), vars, export_script: script }
}

// ---------------------------------------------------------------------------
// Home overview
// ---------------------------------------------------------------------------

/// A tool and the environment it injects (its own keys merged with the
/// plugin's extra keys).
pub struct ToolEnvSource {
    pub name: String,
    pub display: String,
    pub category: String,
    pub version: Option<String>,
    pub active: bool,
    pub envs: Envs,
    pub icon: Option<String>,
}

pub struct EnvKeyValue {
    pub key: String,
    pub value: String,
}

/// What one tool injects.
pub struct ToolEnvInfo {
    pub name: String,
    pub display: String,
    pub category: String,
    pub version: Option<String>,
    pub active: bool,
    /// Its variables other than PATH, by name.
    pub vars: Vec<EnvKeyValue>,
    /// Its PATH pieces, highest priority first.
    pub path_entries: Vec<String>,
    pub icon: Option<String>,
}

/// A row of the merged table, with where it comes from.
pub struct EnvVarRow {
    pub key: String,
    pub value: String,
    pub source: String,
}

pub struct HomeOverview {
    pub tools: Vec<ToolEnvInfo>,
    pub merged: Vec<EnvVarRow>,
}

pub open spec fn kv_view(e: EnvKeyValue) -> (Seq<char>, Seq<char>) {
    (e.key@, e.value@)
}

pub open spec fn row_view(r: EnvVarRow) -> (Seq<char>, Seq<char>, Seq<char>) {
    (r.key@, r.value@, r.source@)
}

/// A tool's variables as shown: not PATH (in any case), unset ones empty.
pub open spec fn shown_vars(e: Seq<(Seq<char>, Option<Seq<char>>)>) -> Seq<(Seq<char>, Seq<char>)>
    decreases e.len(),
{
    if e.len() == 0 {
        Seq::empty()
    } else {
        let acc = shown_vars(e.drop_last());
        let (k, v) = e.last();
        if lower(k) == "path"@ {
            acc
        } else {
            acc.push(
                (
                    k,
                    match v {
                        Some(x) => x,
                        None => Seq::empty(),
                    },
                ),
            )
        }
    }
}

/// The rows a tool contributes: its PATH pieces, then its variables.
pub open spec fn tool_rows(t: ToolEnvInfo) -> Seq<(Seq<char>, Seq<char>, Seq<char>)> {
    t.path_entries@.map_values(|p: String| ("PATH"@, p@, t.display@)) + t.vars@.map_values(
        |e: EnvKeyValue| (e.key@, e.value@, t.display@),
    )
}

pub open spec fn all_tool_rows(ts: Seq<ToolEnvInfo>) -> Seq<(Seq<char>, Seq<char>, Seq<char>)>
    decreases ts.len(),
{
    if ts.len() == 0 {
        Seq::empty()
    } else {
        all_tool_rows(ts.drop_last()) + tool_rows(ts.last())
    }
}

/// The order of the merged table: PATH rows first, then by name, then by source.
pub open spec fn row_le_fn() -> spec_fn(
    (Seq<char>, Seq<char>, Seq<char>),
    (Seq<char>, Seq<char>, Seq<char>),
) -> bool {
    |a: (Seq<char>, Seq<char>, Seq<char>), b: (Seq<char>, Seq<char>, Seq<char>)|
        crate::sort::row_le(a.0 == "PATH"@, (a.0, a.2), b.0 == "PATH"@, (b.0, b.2))
}

pub open spec fn pair_first<V>(e: Seq<(Seq<char>, V)>) -> Seq<Seq<char>> {
    e.map_values(|p: (Seq<char>, V)| p.0)
}

fn sorted_kvs(items: &Vec<(Vec<char>, Vec<char>)>) -> (r: Vec<EnvKeyValue>)
    ensures
        stably_sorted(
            text_le_fn(),
            pair_first(items@.map_values(|p: (Vec<char>, Vec<char>)| (p.0@, p.1@))),
            items@.map_values(|p: (Vec<char>, Vec<char>)| (p.0@, p.1@)),
            r@.map_values(|e: EnvKeyValue| kv_view(e)),
        ),
{
    let ghost iv = items@.map_values(|p: (Vec<char>, Vec<char>)| (p.0@, p.1@));
    let mut names: Vec<Vec<char>> = Vec::new();
    let mut i: usize = 0;
    while i < items.len()
        invariant
            i <= items.len(),
            iv == items@.map_values(|p: (Vec<char>, Vec<char>)| (p.0@, p.1@)),
            views(names@) == pair_first(iv).take(i as int),
        decreases items.len() - i,
    {
        let ghost before = views(names@);
        names.push(crate::text::slice_of(&items[i].0, 0, items[i].0.len()));
        assert(items@[i as int].0@.subrange(0, items@[i as int].0@.len() as int) =~= items@[i as int].0@);
        assert(views(names@) =~= before.push(iv[i as int].0));
        assert(pair_first(iv).take(i + 1) =~= pair_first(iv).take(i as int).push(iv[i as int].0));
        i = i + 1;
    }
    assert(pair_first(iv).take(items.len() as int) =~= pair_first(iv));
    let keys = text_keys(&names);
    let p = stable_order(&keys);
    let mut out: Vec<EnvKeyValue> = Vec::new();
    let mut j: usize = 0;
    while j < p.len()
        invariant
            j <= p.len(),
            is_perm(p@, items@.len()),
            iv == items@.map_values(|p: (Vec<char>, Vec<char>)| (p.0@, p.1@)),
            out@.len() == j,
            forall|m: int| 0 <= m < j ==> kv_view(#[trigger] out@[m]) == iv[p@[m] as int],
        decreases p.len() - j,
    {
        let it = &items[p[j]];
        out.push(EnvKeyValue { key: to_string(&it.0), value: to_string(&it.1) });
        j = j + 1;
    }
    proof {
        lemma_sorted_transfer(keys@, pair_first(iv), text_le_fn(), p@);
        lemma_sorted_witness(text_le_fn(), pair_first(iv), iv, out@.map_values(|e: EnvKeyValue| kv_view(e)), p@);
    }
    out
}

pub open spec fn row_views(v: Seq<(Vec<char>, Vec<char>, Vec<char>)>) -> Seq<(Seq<char>, Seq<char>, Seq<char>)> {
    v.map_values(|r: (Vec<char>, Vec<char>, Vec<char>)| (r.0@, r.1@, r.2@))
}

pub open spec fn global_rows(g: Seq<(Seq<char>, Seq<char>)>) -> Seq<(Seq<char>, Seq<char>, Seq<char>)> {
    g.map_values(|e: (Seq<char>, Seq<char>)| (e.0, e.1, "全局配置"@))
}

pub open spec fn kv_views(v: Seq<EnvKeyValue>) -> Seq<(Seq<char>, Seq<char>)> {
    v.map_values(|e: EnvKeyValue| kv_view(e))
}

fn opt_clone(o: &Option<String>) -> (r: Option<String>)
    ensures
        opt_str(r) == opt_str(*o),
{
    match o {
        Some(s) => Some(s.clone()),
        None => None,
    }
}

/// The variables of one tool as shown, by name.
fn tool_vars(envs: &Envs) -> (r: Vec<EnvKeyValue>)
    ensures
        stably_sorted(
            text_le_fn(),
            pair_first(shown_vars(envs.vars.pairs())),
            shown_vars(envs.vars.pairs()),
            kv_views(r@),
        ),
{
    let n = envs.vars.len();
    let ghost e = envs.vars.pairs();
    let mut items: Vec<(Vec<char>, Vec<char>)> = Vec::new();
    let mut i: usize = 0;
    while i < n
        invariant
            i <= n,
            n == e.len(),
            e == envs.vars.pairs(),
            items@.map_values(|p: (Vec<char>, Vec<char>)| (p.0@, p.1@)) == shown_vars(e.take(i as int)),
        decreases n - i,
    {
        let (k, v) = envs.vars.entry(i);
        let kc = chars_of_string(k);
        assert(e.take(i + 1).drop_last() =~= e.take(i as int));
        assert(e.take(i + 1).last() == e[i as int]);
        if !eq(&to_lower(&kc), &chars_of("path")) {
            let vc = match v {
                Some(x) => chars_of_string(x),
                None => Vec::new(),
            };
            let ghost before = items@.map_values(|p: (Vec<char>, Vec<char>)| (p.0@, p.1@));
            items.push((kc, vc));
            assert(items@.map_values(|p: (Vec<char>, Vec<char>)| (p.0@, p.1@)) =~= before.push(
                (k@, vc@),
            ));
        }
        i = i + 1;
    }
    assert(e.take(n as int) =~= e);
    sorted_kvs(&items)
}

/// The home page: for each tool the variables and PATH pieces it injects,
/// and the merged table (PATH rows first, then by name and source) with the
/// global variables of the configuration last before sorting.
pub fn home_overview(tools: &[ToolEnvSource], globals: &StrMap) -> (r: HomeOverview)
    ensures
        r.tools@.len() == tools@.len(),
        forall|i: int|
            0 <= i < tools@.len() ==> {
                let t = #[trigger] tools@[i];
                let o = r.tools@[i];
                &&& o.name@ == t.name@
                &&& o.display@ == t.display@
                &&& o.category@ == t.category@
                &&& opt_str(o.version) == opt_str(t.version)
                &&& o.active == t.active
                &&& o.icon == t.icon
                &&& o.path_entries@ == t.envs.paths@
                &&& stably_sorted(
                    text_le_fn(),
                    pair_first(shown_vars(t.envs.vars.pairs())),
                    shown_vars(t.envs.vars.pairs()),
                    kv_views(o.vars@),
                )
            },
        exists|g: Seq<(Seq<char>, Seq<char>)>|
            stably_sorted(text_le_fn(), pair_first(globals.pairs()), globals.pairs(), g)
                && stably_sorted(
                row_le_fn(),
                all_tool_rows(r.tools@) + global_rows(g),
                all_tool_rows(r.tools@) + global_rows(g),
                r.merged@.map_values(|x: EnvVarRow| row_view(x)),
            ),
{
    let mut infos: Vec<ToolEnvInfo> = Vec::new();
    let mut rows: Vec<(Vec<char>, Vec<char>, Vec<char>)> = Vec::new();
    let mut i: usize = 0;
    while i < tools.len()
        invariant
            i <= tools.len(),
            infos@.len() == i,
            forall|j: int|
                0 <= j < i ==> {
                    let t = #[trigger] tools@[j];
                    let o = infos@[j];
                    &&& o.name@ == t.name@
                    &&& o.display@ == t.display@
                    &&& o.category@ == t.category@
                    &&& opt_str(o.version) == opt_str(t.version)
                    &&& o.active == t.active
                    &&& o.icon == t.icon
                    &&& o.path_entries@ == t.envs.paths@
                    &&& stably_sorted(
                        text_le_fn(),
                        pair_first(shown_vars(t.envs.vars.pairs())),
                        shown_vars(t.envs.vars.pairs()),
                        kv_views(o.vars@),
                    )
                },
            row_views(rows@) == all_tool_rows(infos@),
        decreases tools.len() - i,
    {
        let t = &tools[i];
        let vars = tool_vars(&t.envs);
        let info = ToolEnvInfo {
            name: t.name.clone(),
            display: t.display.clone(),
            category: t.category.clone(),
            version: opt_clone(&t.version),
            active: t.active,
            vars,
            path_entries: t.envs.paths.clone(),
            icon: t.icon.clone(),
        };
        let ghost base = row_views(rows@);
        let d = chars_of_string(&info.display);
        let mut k: usize = 0;
        while k < info.path_entries.len()
            invariant
                k <= info.path_entries.len(),
                d@ == info.display@,
                row_views(rows@) == base + info.path_entries@.map_values(
                    |p: String| ("PATH"@, p@, info.display@),
                ).take(k as int),
            decreases info.path_entries.len() - k,
        {
            let ghost before = row_views(rows@);
            rows.push((chars_of("PATH"), chars_of_string(&info.path_entries[k]), chars_of_string(&info.display)));
            assert(row_views(rows@) =~= before.push(("PATH"@, info.path_entries@[k as int]@, info.display@)));
            assert(info.path_entries@.map_values(|p: String| ("PATH"@, p@, info.display@)).take(k + 1)
                =~= info.path_entries@.map_values(|p: String| ("PATH"@, p@, info.display@)).take(
                k as int,
            ).push(("PATH"@, info.path_entries@[k as int]@, info.display@)));
            k = k + 1;
        }
        assert(info.path_entries@.map_values(|p: String| ("PATH"@, p@, info.display@)).take(
            info.path_entries.len() as int,
        ) =~= info.path_entries@.map_values(|p: String| ("PATH"@, p@, info.display@)));
        let ghost mid = row_views(rows@);
        let mut k: usize = 0;
        while k < info.vars.len()
            invariant
                k <= info.vars.len(),
                row_views(rows@) == mid + info.vars@.map_values(
                    |e: EnvKeyValue| (e.key@, e.value@, info.display@),
                ).take(k as int),
            decreases info.vars.len() - k,
        {
            let ghost before = row_views(rows@);
            let e = &info.vars[k];
            rows.push((chars_of_string(&e.key), chars_of_string(&e.value), chars_of_string(&info.display)));
            assert(row_views(rows@) =~= before.push((e.key@, e.value@, info.display@)));
            assert(info.vars@.map_values(|e: EnvKeyValue| (e.key@, e.value@, info.display@)).take(k + 1)
                =~= info.vars@.map_values(|e: EnvKeyValue| (e.key@, e.value@, info.display@)).take(
                k as int,
            ).push((e.key@, e.value@, info.display@)));
            k = k + 1;
        }
        assert(info.vars@.map_values(|e: EnvKeyValue| (e.key@, e.value@, info.display@)).take(
            info.vars.len() as int,
        ) =~= info.vars@.map_values(|e: EnvKeyValue| (e.key@, e.value@, info.display@)));
        let ghost old_infos = infos@;
        infos.push(info);
        proof {
            assert(infos@.drop_last() =~= old_infos);
            assert(row_views(rows@) =~= all_tool_rows(old_infos) + tool_rows(infos@.last()));
        }
        i = i + 1;
    }
    let ghost tool_part = row_views(rows@);
    let gn = globals.len();
    let ghost gp = globals.pairs();
    let mut gitems: Vec<(Vec<char>, Vec<char>)> = Vec::new();
    let mut i: usize = 0;
    while i < gn
        invariant
            i <= gn,
            gn == gp.len(),
            gp == globals.pairs(),
            gitems@.map_values(|p: (Vec<char>, Vec<char>)| (p.0@, p.1@)) == gp.take(i as int),
        decreases gn - i,
    {
        let (k, v) = globals.entry(i);
        let ghost before = gitems@.map_values(|p: (Vec<char>, Vec<char>)| (p.0@, p.1@));
        gitems.push((chars_of_string(k), chars_of_string(v)));
        assert(gitems@.map_values(|p: (Vec<char>, Vec<char>)| (p.0@, p.1@)) =~= before.push(gp[i as int]));
        assert(gp.take(i + 1) =~= gp.take(i as int).push(gp[i as int]));
        i = i + 1;
    }
    assert(gp.take(gn as int) =~= gp);
    assert(gitems@.map_values(|p: (Vec<char>, Vec<char>)| (p.0@, p.1@)) =~= gp);
    let gs = sorted_kvs(&gitems);
    let ghost g = kv_views(gs@);
    let mut k: usize = 0;
    while k < gs.len()
        invariant
            k <= gs.len(),
            g == kv_views(gs@),
            row_views(rows@) == tool_part + global_rows(g).take(k as int),
        decreases gs.len() - k,
    {
        let ghost before = row_views(rows@);
        rows.push((chars_of_string(&gs[k].key), chars_of_string(&gs[k].value), chars_of("全局配置")));
        assert(row_views(rows@) =~= before.push(global_rows(g)[k as int]));
        assert(global_rows(g).take(k + 1) =~= global_rows(g).take(k as int).push(global_rows(g)[k as int]));
        k = k + 1;
    }
    assert(global_rows(g).take(gs.len() as int) =~= global_rows(g));
    let ghost all = row_views(rows@);
    // Sort the rows.
    let mut keys: Vec<RowKey> = Vec::new();
    let mut m: usize = 0;
    while m < rows.len()
        invariant
            m <= rows.len(),
            all == row_views(rows@),
            keys@.len() == m,
            forall|a: int|
                0 <= a < m ==> {
                    let kk = #[trigger] keys@[a];
                    &&& kk.key@ == all[a].0
                    &&& kk.source@ == all[a].2
                    &&& kk.is_path == (all[a].0 == "PATH"@)
                },
        decreases rows.len() - m,
    {
        let r = &rows[m];
        let is_path = eq(&r.0, &chars_of("PATH"));
        keys.push(RowKey {
            is_path,
            key: crate::text::slice_of(&r.0, 0, r.0.len()),
            source: crate::text::slice_of(&r.2, 0, r.2.len()),
        });
        assert(r.0@.subrange(0, r.0@.len() as int) =~= r.0@);
        assert(r.2@.subrange(0, r.2@.len() as int) =~= r.2@);
        m = m + 1;
    }
    let p = stable_order(&keys);
    let mut merged: Vec<EnvVarRow> = Vec::new();
    let mut j: usize = 0;
    while j < p.len()
        invariant
            j <= p.len(),
            is_perm(p@, rows@.len()),
            all == row_views(rows@),
            merged@.len() == j,
            forall|a: int| 0 <= a < j ==> row_view(#[trigger] merged@[a]) == all[p@[a] as int],
        decreases p.len() - j,
    {
        let r = &rows[p[j]];
        merged.push(EnvVarRow { key: to_string(&r.0), value: to_string(&r.1), source: to_string(&r.2) });
        j = j + 1;
    }
    proof {
        assert forall|a: int, b: int|
            #![trigger keys@[a].key_le(&keys@[b])]
            0 <= a < keys@.len() && 0 <= b < keys@.len() implies keys@[a].key_le(&keys@[b])
            == row_le_fn()(all[a], all[b]) by {
            let ka = keys@[a];
            let kb = keys@[b];
            assert(ka.key@ == all[a].0 && ka.source@ == all[a].2 && ka.is_path == (all[a].0 == "PATH"@));
            assert(kb.key@ == all[b].0 && kb.source@ == all[b].2 && kb.is_path == (all[b].0 == "PATH"@));
        }
        lemma_sorted_transfer(keys@, all, row_le_fn(), p@);
        lemma_sorted_witness(row_le_fn(), all, all, merged@.map_values(|x: EnvVarRow| row_view(x)), p@);
        assert(all == all_tool_rows(infos@) + global_rows(g));
    }
    HomeOverview { tools: infos, merged }
}

} // verus!
