//! `key=value` configuration files: npm (`~/.npmrc`) and pip (`pip.conf` /
//! `pip.ini`, keys in `[global]`). Merging changes only the target keys and
//! keeps comments, blank lines and everything else.

use vstd::prelude::*;

use crate::registry::RegistryPreset;
use crate::text::{
    append, append_str, chars_of, chars_of_string, ends_with, ends_with_v, eq, find, find_first,
    is_ws, join, join_v, lead_len, lemma_find_first_is, lemma_join_concat, lemma_find_first_props, lemma_lead_len,
    lemma_lead_len_props, lemma_lines_join, lemma_lines_nl_free, lemma_trail_len,
    lemma_trail_len_props, lemma_trim_drop_trailing_ws, lemma_trim_strip_cr, lines, lines_v, nl_free,
    strip_cr, trail_len, trim_end, ws_pred, lower, occurs_at, slice_of, starts_with,
    starts_with_v, strip_lead, strip_lead_v, strip_trail, strip_trail_v, to_lower, to_string,
    trim, trim_start, trim_start_v, trim_v, views,
};

verus! {

pub open spec fn pair_views(u: Seq<(&str, &str)>) -> Seq<(Seq<char>, Seq<char>)> {
    u.map_values(|p: (&str, &str)| (p.0@, p.1@))
}

pub open spec fn str_list(u: Seq<&str>) -> Seq<Seq<char>> {
    u.map_values(|p: &str| p@)
}

/// The key of a line: what comes before the first `=` (trimmed), or empty.
pub open spec fn ini_key(line: Seq<char>) -> Seq<char> {
    let t = trim_start(line);
    match find_first(t, seq!['=']) {
        Some(i) => trim(t.take(i)),
        None => Seq::empty(),
    }
}

/// `key=value`.
pub open spec fn kv_line(k: Seq<char>, v: Seq<char>) -> Seq<char> {
    k + seq!['='] + v
}

/// Index of the first update for `key`.
pub open spec fn first_update(ups: Seq<(Seq<char>, Seq<char>)>, key: Seq<char>) -> Option<int> {
    if exists|i: int| 0 <= i < ups.len() && ups[i].0 == key {
        Some(
            choose|i: int|
                0 <= i < ups.len() && ups[i].0 == key && forall|j: int| 0 <= j < i ==> ups[j].0 != key,
        )
    } else {
        None
    }
}

/// Updates whose key was not met, as `key=value` lines, in order.
pub open spec fn unseen_lines(ups: Seq<(Seq<char>, Seq<char>)>, seen: Seq<Seq<char>>) -> Seq<Seq<char>>
    decreases ups.len(),
{
    if ups.len() == 0 {
        Seq::empty()
    } else {
        let rest = unseen_lines(ups.drop_last(), seen);
        if seen.contains(ups.last().0) {
            rest
        } else {
            rest.push(kv_line(ups.last().0, ups.last().1))
        }
    }
}

/// One line of a key/value merge: `(output, keys met)` after the line.
pub open spec fn kv_step(
    out: Seq<Seq<char>>,
    seen: Seq<Seq<char>>,
    l: Seq<char>,
    ups: Seq<(Seq<char>, Seq<char>)>,
    rms: Seq<Seq<char>>,
) -> (Seq<Seq<char>>, Seq<Seq<char>>) {
    let key = ini_key(l);
    match first_update(ups, key) {
        Some(i) => (out.push(kv_line(key, ups[i].1)), seen.push(key)),
        None => if rms.contains(key) {
            (out, seen)
        } else {
            (out.push(l), seen)
        },
    }
}

/// A line of a top-level merge that is kept as it is: a section header, a
/// line without key, or a comment.
pub open spec fn top_passthrough(l: Seq<char>) -> bool {
    let t = trim_start(l);
    let k = ini_key(l);
    starts_with(k, seq!['[']) || k.len() == 0 || starts_with(t, seq!['#']) || starts_with(
        t,
        seq![';'],
    )
}

pub open spec fn top_run(ls: Seq<Seq<char>>, ups: Seq<(Seq<char>, Seq<char>)>, rms: Seq<Seq<char>>) -> (
    Seq<Seq<char>>,
    Seq<Seq<char>>,
)
    decreases ls.len(),
{
    if ls.len() == 0 {
        (Seq::empty(), Seq::empty())
    } else {
        let prev = top_run(ls.drop_last(), ups, rms);
        if top_passthrough(ls.last()) {
            (prev.0.push(ls.last()), prev.1)
        } else {
            kv_step(prev.0, prev.1, ls.last(), ups, rms)
        }
    }
}

/// The result of `merge_ini`: existing keys replaced (the first update for
/// a key wins), removed keys dropped, unmet updates appended.
pub open spec fn merged_ini(content: Seq<char>, ups: Seq<(Seq<char>, Seq<char>)>, rms: Seq<Seq<char>>) -> Seq<
    char,
> {
    let r = top_run(lines(content), ups, rms);
    let all = r.0 + unseen_lines(ups, r.1);
    if all.len() == 0 {
        Seq::empty()
    } else {
        join(all, seq!['\n']).push('\n')
    }
}

fn copy_v(v: &Vec<char>) -> (r: Vec<char>)
    ensures
        r@ == v@,
{
    let r = slice_of(v, 0, v.len());
    assert(v@.subrange(0, v@.len() as int) =~= v@);
    r
}

fn ini_key_v(l: &Vec<char>) -> (r: Vec<char>)
    ensures
        r@ == ini_key(l@),
{
    let t = trim_start_v(l);
    let eqs = vec!['='];
    assert(eqs@ =~= seq!['=']);
    match find(&t, &eqs) {
        Some(i) => {
            let k = slice_of(&t, 0, i);
            assert(k@ =~= t@.take(i as int));
            trim_v(&k)
        },
        None => Vec::new(),
    }
}

fn kv_line_v(k: &Vec<char>, v: &Vec<char>) -> (r: Vec<char>)
    ensures
        r@ == kv_line(k@, v@),
{
    let mut r = copy_v(k);
    r.push('=');
    append(&mut r, v);
    assert(r@ =~= kv_line(k@, v@));
    r
}

fn update_views(ups: &[(&str, &str)]) -> (r: Vec<(Vec<char>, Vec<char>)>)
    ensures
        r@.map_values(|p: (Vec<char>, Vec<char>)| (p.0@, p.1@)) == pair_views(ups@),
{
    let mut r: Vec<(Vec<char>, Vec<char>)> = Vec::new();
    let mut i: usize = 0;
    while i < ups.len()
        invariant
            i <= ups.len(),
            r@.map_values(|p: (Vec<char>, Vec<char>)| (p.0@, p.1@)) == pair_views(ups@).take(i as int),
        decreases ups.len() - i,
    {
        let (k, v) = ups[i];
        let ghost before = r@.map_values(|p: (Vec<char>, Vec<char>)| (p.0@, p.1@));
        r.push((chars_of(k), chars_of(v)));
        assert(r@.map_values(|p: (Vec<char>, Vec<char>)| (p.0@, p.1@)) =~= before.push((k@, v@)));
        assert(pair_views(ups@).take(i + 1) =~= pair_views(ups@).take(i as int).push((k@, v@)));
        i = i + 1;
    }
    assert(pair_views(ups@).take(ups@.len() as int) =~= pair_views(ups@));
    r
}

pub open spec fn cvp(r: Seq<(Vec<char>, Vec<char>)>) -> Seq<(Seq<char>, Seq<char>)> {
    r.map_values(|p: (Vec<char>, Vec<char>)| (p.0@, p.1@))
}

fn remove_views(rms: &[&str]) -> (r: Vec<Vec<char>>)
    ensures
        views(r@) == str_list(rms@),
{
    let mut r: Vec<Vec<char>> = Vec::new();
    let mut i: usize = 0;
    while i < rms.len()
        invariant
            i <= rms.len(),
            views(r@) == str_list(rms@).take(i as int),
        decreases rms.len() - i,
    {
        let ghost before = views(r@);
        r.push(chars_of(rms[i]));
        assert(views(r@) =~= before.push(rms@[i as int]@));
        assert(str_list(rms@).take(i + 1) =~= str_list(rms@).take(i as int).push(rms@[i as int]@));
        i = i + 1;
    }
    assert(str_list(rms@).take(rms@.len() as int) =~= str_list(rms@));
    r
}

fn seq_contains_v(s: &Vec<Vec<char>>, x: &Vec<char>) -> (r: bool)
    ensures
        r == views(s@).contains(x@),
{
    let mut i: usize = 0;
    while i < s.len()
        invariant
            i <= s.len(),
            forall|j: int| 0 <= j < i ==> views(s@)[j] != x@,
        decreases s.len() - i,
    {
        if eq(&s[i], x) {
            assert(views(s@)[i as int] == x@);
            return true;
        }
        i = i + 1;
    }
    false
}

fn first_update_v(ups: &Vec<(Vec<char>, Vec<char>)>, key: &Vec<char>) -> (r: Option<usize>)
    ensures
        match r {
            Some(i) => i < ups@.len() && first_update(cvp(ups@), key@) == Some(i as int),
            None => first_update(cvp(ups@), key@) is None,
        },
{
    let ghost u = cvp(ups@);
    let mut i: usize = 0;
    while i < ups.len()
        invariant
            i <= ups.len(),
            u == cvp(ups@),
            forall|j: int| 0 <= j < i ==> u[j].0 != key@,
        decreases ups.len() - i,
    {
        if eq(&ups[i].0, key) {
            proof {
                let c = choose|x: int|
                    0 <= x < u.len() && u[x].0 == key@ && forall|j: int| 0 <= j < x ==> u[j].0 != key@;
                assert(0 <= c < u.len() && u[c].0 == key@ && forall|j: int| 0 <= j < c ==> u[j].0 != key@)
                    by {
                    assert(u[i as int].0 == key@);
                }
                if c < i {
                    assert(u[c].0 != key@);
                }
                if i < c {
                    assert(u[i as int].0 != key@);
                }
            }
            return Some(i);
        }
        i = i + 1;
    }
    None
}

/// Appends the unmet updates.
fn push_unseen(out: &mut Vec<Vec<char>>, ups: &Vec<(Vec<char>, Vec<char>)>, seen: &Vec<Vec<char>>)
    ensures
        views(final(out)@) == views(old(out)@) + unseen_lines(cvp(ups@), views(seen@)),
{
    let ghost u = cvp(ups@);
    let ghost o = views(out@);
    let mut i: usize = 0;
    assert(u.take(0) =~= Seq::<(Seq<char>, Seq<char>)>::empty());
    assert(o + unseen_lines(u.take(0), views(seen@)) =~= o);
    while i < ups.len()
        invariant
            i <= ups.len(),
            u == cvp(ups@),
            views(out@) == o + unseen_lines(u.take(i as int), views(seen@)),
        decreases ups.len() - i,
    {
        assert(u.take(i + 1).drop_last() =~= u.take(i as int));
        assert(u.take(i + 1).last() == u[i as int]);
        if !seq_contains_v(seen, &ups[i].0) {
            let line = kv_line_v(&ups[i].0, &ups[i].1);
            let ghost before = views(out@);
            out.push(line);
            assert(views(out@) =~= before.push(line@));
        }
        i = i + 1;
    }
    assert(u.take(ups@.len() as int) =~= u);
}

fn kv_step_v(
    out: &mut Vec<Vec<char>>,
    seen: &mut Vec<Vec<char>>,
    l: &Vec<char>,
    ups: &Vec<(Vec<char>, Vec<char>)>,
    rms: &Vec<Vec<char>>,
)
    ensures
        (views(final(out)@), views(final(seen)@)) == kv_step(
            views(old(out)@),
            views(old(seen)@),
            l@,
            cvp(ups@),
            views(rms@),
        ),
{
    let ghost o = views(out@);
    let ghost s = views(seen@);
    let key = ini_key_v(l);
    match first_update_v(ups, &key) {
        Some(i) => {
            proof {
                assert(cvp(ups@)[i as int] == (ups@[i as int].0@, ups@[i as int].1@));
            }
            let line = kv_line_v(&key, &ups[i].1);
            out.push(line);
            seen.push(copy_v(&key));
            assert(views(out@) =~= o.push(line@));
            assert(views(seen@) =~= s.push(key@));
        },
        None => {
            if !seq_contains_v(rms, &key) {
                out.push(copy_v(l));
                assert(views(out@) =~= o.push(l@));
            }
        },
    }
}

fn top_passthrough_v(l: &Vec<char>) -> (r: bool)
    ensures
        r == top_passthrough(l@),
{
    let t = trim_start_v(l);
    let k = ini_key_v(l);
    let open = vec!['['];
    let hash = vec!['#'];
    let semi = vec![';'];
    assert(open@ =~= seq!['[']);
    assert(hash@ =~= seq!['#']);
    assert(semi@ =~= seq![';']);
    starts_with_v(&k, &open) || k.len() == 0 || starts_with_v(&t, &hash) || starts_with_v(&t, &semi)
}

/// Top-level `key=value` merge: replaces existing keys, appends the ones not
/// present, drops the removed ones, keeps comments and blank lines.
pub fn merge_ini(content: &str, updates: &[(&str, &str)], removes: &[&str]) -> (r: String)
    ensures
        r@ == merged_ini(content@, pair_views(updates@), str_list(removes@)),
{
    let c = chars_of(content);
    let ups = update_views(updates);
    let rms = remove_views(removes);
    let ls = lines_v(&c);
    let ghost all = views(ls@);
    let ghost u = cvp(ups@);
    let mut out: Vec<Vec<char>> = Vec::new();
    let mut seen: Vec<Vec<char>> = Vec::new();
    let mut i: usize = 0;
    assert(all.take(0) =~= Seq::<Seq<char>>::empty());
    assert(views(out@) =~= Seq::<Seq<char>>::empty());
    assert(views(seen@) =~= Seq::<Seq<char>>::empty());
    while i < ls.len()
        invariant
            i <= ls.len(),
            all == views(ls@),
            u == cvp(ups@),
            (views(out@), views(seen@)) == top_run(all.take(i as int), u, views(rms@)),
        decreases ls.len() - i,
    {
        assert(all.take(i + 1).drop_last() =~= all.take(i as int));
        assert(all.take(i + 1).last() == ls@[i as int]@);
        if top_passthrough_v(&ls[i]) {
            let ghost o = views(out@);
            out.push(copy_v(&ls[i]));
            assert(views(out@) =~= o.push(ls@[i as int]@));
        } else {
            kv_step_v(&mut out, &mut seen, &ls[i], &ups, &rms);
        }
        i = i + 1;
    }
    assert(all.take(ls.len() as int) =~= all);
    push_unseen(&mut out, &ups, &seen);
    if out.len() == 0 {
        return String::new();
    }
    let nl = vec!['\n'];
    assert(nl@ =~= seq!['\n']);
    let mut text = join_v(&out, &nl);
    text.push('\n');
    to_string(&text)
}

// ---------------------------------------------------------------------------
// Sections
// ---------------------------------------------------------------------------

/// A `[name]` line (after leading whitespace).
pub open spec fn is_header(l: Seq<char>) -> bool {
    let t = trim_start(l);
    starts_with(t, seq!['[']) && ends_with(t, seq![']'])
}

/// The name in a header, lower-cased.
pub open spec fn header_name(l: Seq<char>) -> Seq<char> {
    lower(trim(strip_trail(strip_lead(trim_start(l), '['), ']')))
}

/// A line inside the target section that is kept as it is.
pub open spec fn sec_passthrough(l: Seq<char>) -> bool {
    let t = trim_start(l);
    starts_with(t, seq!['#']) || starts_with(t, seq![';']) || ini_key(l).len() == 0
}

/// State of a section merge: output, inside the target, target seen, keys met.
pub struct SecState {
    pub out: Seq<Seq<char>>,
    pub inside: bool,
    pub found: bool,
    pub seen: Seq<Seq<char>>,
}

pub open spec fn sec_step(
    st: SecState,
    l: Seq<char>,
    sec: Seq<char>,
    ups: Seq<(Seq<char>, Seq<char>)>,
    rms: Seq<Seq<char>>,
) -> SecState {
    if is_header(l) {
        if header_name(l) == lower(sec) {
            SecState { out: st.out.push(l), inside: true, found: true, seen: st.seen }
        } else if st.inside {
            SecState {
                out: (st.out + unseen_lines(ups, st.seen)).push(l),
                inside: false,
                found: st.found,
                seen: update_keys(ups),
            }
        } else {
            SecState { out: st.out.push(l), inside: false, found: st.found, seen: st.seen }
        }
    } else if !st.inside || sec_passthrough(l) {
        SecState { out: st.out.push(l), ..st }
    } else {
        let r = kv_step(st.out, st.seen, l, ups, rms);
        SecState { out: r.0, seen: r.1, ..st }
    }
}

pub open spec fn sec_run(
    ls: Seq<Seq<char>>,
    sec: Seq<char>,
    ups: Seq<(Seq<char>, Seq<char>)>,
    rms: Seq<Seq<char>>,
) -> SecState
    decreases ls.len(),
{
    if ls.len() == 0 {
        SecState { out: Seq::empty(), inside: false, found: false, seen: Seq::empty() }
    } else {
        sec_step(sec_run(ls.drop_last(), sec, ups, rms), ls.last(), sec, ups, rms)
    }
}

/// The keys of the updates.
pub open spec fn update_keys(ups: Seq<(Seq<char>, Seq<char>)>) -> Seq<Seq<char>> {
    ups.map_values(|p: (Seq<char>, Seq<char>)| p.0)
}

/// The result of `merge_ini_section`: keys of section `sec` merged as in
/// `merge_ini`, and the updates not met in the section written where it
/// ends (once: a later section of the same name only has its keys set);
/// when there is no such section, it is created at the end with every
/// update. Lines outside the section are kept as they are.
pub open spec fn merged_ini_section(
    content: Seq<char>,
    sec: Seq<char>,
    ups: Seq<(Seq<char>, Seq<char>)>,
    rms: Seq<Seq<char>>,
) -> Seq<char> {
    let st = sec_run(lines(content), sec, ups, rms);
    let a = if st.inside {
        st.out + unseen_lines(ups, st.seen)
    } else {
        st.out
    };
    let b = if !st.found {
        a.push(seq!['\n', '['] + sec + seq![']']) + unseen_lines(ups, st.seen)
    } else {
        a
    };
    join(b, seq!['\n']).push('\n')
}

/// The keys of the updates, as vectors.
fn update_key_list(ups: &Vec<(Vec<char>, Vec<char>)>) -> (r: Vec<Vec<char>>)
    ensures
        views(r@) == update_keys(cvp(ups@)),
{
    let mut r: Vec<Vec<char>> = Vec::new();
    let mut i: usize = 0;
    while i < ups.len()
        invariant
            i <= ups.len(),
            views(r@) == update_keys(cvp(ups@)).take(i as int),
        decreases ups.len() - i,
    {
        let ghost before = views(r@);
        r.push(copy_v(&ups[i].0));
        assert(views(r@) =~= before.push(ups@[i as int].0@));
        assert(update_keys(cvp(ups@)).take(i + 1) =~= update_keys(cvp(ups@)).take(i as int).push(
            ups@[i as int].0@,
        ));
        i = i + 1;
    }
    assert(update_keys(cvp(ups@)).take(ups.len() as int) =~= update_keys(cvp(ups@)));
    r
}

fn header_name_v(l: &Vec<char>) -> (r: Vec<char>)
    ensures
        r@ == header_name(l@),
{
    let t = trim_start_v(l);
    let a = strip_lead_v(&t, '[');
    let b = strip_trail_v(&a, ']');
    let c = trim_v(&b);
    to_lower(&c)
}

fn is_header_v(l: &Vec<char>) -> (r: bool)
    ensures
        r == is_header(l@),
{
    let t = trim_start_v(l);
    let open = vec!['['];
    let close = vec![']'];
    assert(open@ =~= seq!['[']);
    assert(close@ =~= seq![']']);
    starts_with_v(&t, &open) && ends_with_v(&t, &close)
}

fn sec_passthrough_v(l: &Vec<char>) -> (r: bool)
    ensures
        r == sec_passthrough(l@),
{
    let t = trim_start_v(l);
    let k = ini_key_v(l);
    let hash = vec!['#'];
    let semi = vec![';'];
    assert(hash@ =~= seq!['#']);
    assert(semi@ =~= seq![';']);
    starts_with_v(&t, &hash) || starts_with_v(&t, &semi) || k.len() == 0
}

/// `key=value` merge inside section `section` (e.g. `[global]`); keys of
/// other sections are kept.
pub fn merge_ini_section(
    content: &str,
    section: &str,
    updates: &[(&str, &str)],
    removes: &[&str],
) -> (r: String)
    ensures
        r@ == merged_ini_section(content@, section@, pair_views(updates@), str_list(removes@)),
{
    let c = chars_of(content);
    let sc = chars_of(section);
    let sec_lower = to_lower(&sc);
    let ups = update_views(updates);
    let rms = remove_views(removes);
    let ls = lines_v(&c);
    let ghost all = views(ls@);
    let ghost u = cvp(ups@);
    let ghost rv = views(rms@);
    let mut out: Vec<Vec<char>> = Vec::new();
    let mut seen: Vec<Vec<char>> = Vec::new();
    let mut inside = false;
    let mut found = false;
    let mut i: usize = 0;
    assert(all.take(0) =~= Seq::<Seq<char>>::empty());
    assert(views(out@) =~= Seq::<Seq<char>>::empty());
    assert(views(seen@) =~= Seq::<Seq<char>>::empty());
    while i < ls.len()
        invariant
            i <= ls.len(),
            all == views(ls@),
            u == cvp(ups@),
            rv == views(rms@),
            sec_lower@ == lower(section@),
            sec_run(all.take(i as int), section@, u, rv) == (SecState {
                out: views(out@),
                inside,
                found,
                seen: views(seen@),
            }),
        decreases ls.len() - i,
    {
        assert(all.take(i + 1).drop_last() =~= all.take(i as int));
        assert(all.take(i + 1).last() == ls@[i as int]@);
        let l = &ls[i];
        if is_header_v(l) {
            let name = header_name_v(l);
            if eq(&name, &sec_lower) {
                let ghost o = views(out@);
                out.push(copy_v(l));
                assert(views(out@) =~= o.push(l@));
                inside = true;
                found = true;
            } else {
                if inside {
                    push_unseen(&mut out, &ups, &seen);
                    seen = update_key_list(&ups);
                }
                let ghost o = views(out@);
                out.push(copy_v(l));
                assert(views(out@) =~= o.push(l@));
                inside = false;
            }
        } else if !inside || sec_passthrough_v(l) {
            let ghost o = views(out@);
            out.push(copy_v(l));
            assert(views(out@) =~= o.push(l@));
        } else {
            kv_step_v(&mut out, &mut seen, l, &ups, &rms);
        }
        i = i + 1;
    }
    assert(all.take(ls.len() as int) =~= all);
    if inside {
        push_unseen(&mut out, &ups, &seen);
    }
    if !found {
        let mut h: Vec<char> = Vec::new();
        h.push('\n');
        h.push('[');
        append(&mut h, &sc);
        h.push(']');
        assert(h@ =~= seq!['\n', '['] + section@ + seq![']']);
        let ghost o = views(out@);
        out.push(h);
        assert(views(out@) =~= o.push(h@));
        push_unseen(&mut out, &ups, &seen);
    }
    let nl = vec!['\n'];
    assert(nl@ =~= seq!['\n']);
    let mut text = join_v(&out, &nl);
    text.push('\n');
    to_string(&text)
}

// ---------------------------------------------------------------------------
// npm and pip writers
// ---------------------------------------------------------------------------

/// The value of the first line that starts (after trimming) with `prefix`.
pub open spec fn first_prefixed(ls: Seq<Seq<char>>, prefix: Seq<char>) -> Option<Seq<char>>
    decreases ls.len(),
{
    if ls.len() == 0 {
        None
    } else if starts_with(trim(ls[0]), prefix) {
        Some(trim(trim(ls[0]).skip(prefix.len() as int)))
    } else {
        first_prefixed(ls.drop_first(), prefix)
    }
}

fn first_prefixed_v(content: &str, prefix: &str) -> (r: Option<String>)
    ensures
        match r {
            Some(v) => first_prefixed(lines(content@), prefix@) == Some(v@),
            None => first_prefixed(lines(content@), prefix@) is None,
        },
{
    let c = chars_of(content);
    let p = chars_of(prefix);
    let ls = lines_v(&c);
    let ghost all = views(ls@);
    let mut i: usize = 0;
    assert(all.skip(0) =~= all);
    while i < ls.len()
        invariant
            i <= ls.len(),
            all == views(ls@),
            all == lines(content@),
            p@ == prefix@,
            first_prefixed(all, prefix@) == first_prefixed(all.skip(i as int), prefix@),
        decreases ls.len() - i,
    {
        assert(all.skip(i as int)[0] == ls@[i as int]@);
        assert(all.skip(i as int).drop_first() =~= all.skip(i + 1));
        let t = trim_v(&ls[i]);
        if starts_with_v(&t, &p) {
            let rest = slice_of(&t, p.len(), t.len());
            assert(rest@ =~= t@.skip(p@.len() as int));
            let v = trim_v(&rest);
            return Some(to_string(&v));
        }
        i = i + 1;
    }
    None
}

/// A preset's updates: `(first_key, url)` then its extra settings.
pub open spec fn preset_updates(first_key: Seq<char>, p: RegistryPreset) -> Seq<(Seq<char>, Seq<char>)> {
    seq![(first_key, p.url@)] + p.extra@.map_values(|e: (String, String)| (e.0@, e.1@))
}

fn preset_update_list<'a>(first_key: &'a str, p: &'a RegistryPreset) -> (r: Vec<(&'a str, &'a str)>)
    ensures
        pair_views(r@) == preset_updates(first_key@, *p),
{
    let mut r: Vec<(&str, &str)> = Vec::new();
    r.push((first_key, p.url.as_str()));
    let mut i: usize = 0;
    while i < p.extra.len()
        invariant
            i <= p.extra.len(),
            pair_views(r@) == seq![(first_key@, p.url@)] + p.extra@.map_values(
                |e: (String, String)| (e.0@, e.1@),
            ).take(i as int),
        decreases p.extra.len() - i,
    {
        let ghost before = pair_views(r@);
        r.push((p.extra[i].0.as_str(), p.extra[i].1.as_str()));
        assert(pair_views(r@) =~= before.push((p.extra@[i as int].0@, p.extra@[i as int].1@)));
        assert(p.extra@.map_values(|e: (String, String)| (e.0@, e.1@)).take(i + 1) =~= p.extra@.map_values(
            |e: (String, String)| (e.0@, e.1@),
        ).take(i as int).push((p.extra@[i as int].0@, p.extra@[i as int].1@)));
        i = i + 1;
    }
    assert(p.extra@.map_values(|e: (String, String)| (e.0@, e.1@)).take(p.extra@.len() as int)
        =~= p.extra@.map_values(|e: (String, String)| (e.0@, e.1@)));
    r
}

/// npm: `registry=` in `~/.npmrc`.
pub struct NpmWriter;

impl NpmWriter {
    pub fn tool_name(&self) -> (r: &'static str)
        ensures
            r@ == "npm"@,
    {
        "npm"
    }

    pub fn current_url(&self, content: &str) -> (r: Option<String>)
        ensures
            match r {
                Some(v) => first_prefixed(lines(content@), "registry="@) == Some(v@),
                None => first_prefixed(lines(content@), "registry="@) is None,
            },
    {
        first_prefixed_v(content, "registry=")
    }

    /// `.npmrc` with `registry` set to the preset URL and its extra keys set.
    pub fn merged_config(&self, content: &str, preset: &RegistryPreset) -> (r: String)
        ensures
            r@ == merged_ini(content@, preset_updates("registry"@, *preset), Seq::empty()),
    {
        let ups = preset_update_list("registry", preset);
        let none: Vec<&str> = Vec::new();
        let r = merge_ini(content, ups.as_slice(), none.as_slice());
        assert(str_list(none@) =~= Seq::<Seq<char>>::empty());
        r
    }
}

/// pip: `index-url=` in `[global]` of `pip.conf` / `pip.ini`.
pub struct PipWriter;

impl PipWriter {
    pub fn tool_name(&self) -> (r: &'static str)
        ensures
            r@ == "pip"@,
    {
        "pip"
    }

    pub fn current_url(&self, content: &str) -> (r: Option<String>)
        ensures
            match r {
                Some(v) => first_prefixed(lines(content@), "index-url="@) == Some(v@),
                None => first_prefixed(lines(content@), "index-url="@) is None,
            },
    {
        first_prefixed_v(content, "index-url=")
    }

    /// The pip configuration with `index-url` (and the extra keys) set in `[global]`.
    pub fn merged_config(&self, content: &str, preset: &RegistryPreset) -> (r: String)
        ensures
            r@ == merged_ini_section(
                content@,
                "global"@,
                preset_updates("index-url"@, *preset),
                Seq::empty(),
            ),
    {
        let ups = preset_update_list("index-url", preset);
        let none: Vec<&str> = Vec::new();
        let r = merge_ini_section(content, "global", ups.as_slice(), none.as_slice());
        assert(str_list(none@) =~= Seq::<Seq<char>>::empty());
        r
    }
}

// ---------------------------------------------------------------------------
// Reading back what was merged
// ---------------------------------------------------------------------------

pub open spec fn prefixed(l: Seq<char>, pre: Seq<char>) -> bool {
    starts_with(trim(l), pre)
}

/// `k=v` where `k` starts with no white space and holds no `=`: trimming
/// keeps `k=` at its start, and trimming the rest of what follows `=` is
/// trimming `v`.
proof fn lemma_kv_trim(k: Seq<char>, v: Seq<char>)
    requires
        k.len() > 0,
        !is_ws(k[0]),
    ensures
        trim(kv_line(k, v)).len() >= k.len() + 1,
        forall|i: int| 0 <= i <= k.len() ==> trim(kv_line(k, v))[i] == kv_line(k, v)[i],
        trim(trim(kv_line(k, v)).skip(k.len() + 1int)) == trim(v),
{
    let l = kv_line(k, v);
    let w = ws_pred();
    lemma_lead_len(l, w, 0);
    assert(l.skip(0) =~= l);
    lemma_trail_len_props(l, w);
    let tr = trail_len(l, w) as int;
    assert(l[k.len() as int] == '=');
    assert(!is_ws('='));
    assert(tr <= v.len());
    let t = trim(l);
    assert(t == l.take(l.len() - tr));
    assert(t.skip(k.len() + 1int) =~= v.take(v.len() - tr));
    assert forall|i: int| v.len() - tr <= i < v.len() implies is_ws(v[i]) by {
        assert(v[i] == l[k.len() + 1 + i]);
    }
    lemma_trim_drop_trailing_ws(v, tr);
}

/// A key as a merge writes it: not empty, no white space at either end, no
/// `=` in it, and not starting like a header or a comment.
pub open spec fn plain_key(k: Seq<char>) -> bool {
    &&& k.len() > 0
    &&& !is_ws(k[0])
    &&& !is_ws(k.last())
    &&& forall|i: int| 0 <= i < k.len() ==> k[i] != '='
    &&& k[0] != '[' && k[0] != '#' && k[0] != ';'
}

/// `k=`, the start of a line setting `k`.
pub open spec fn key_eq(k: Seq<char>) -> Seq<char> {
    k.push('=')
}

/// A line that starts (after trimming) with `k=` has the key `k` and is
/// merged as a key line, neither kept as it is nor taken for a header.
proof fn lemma_prefixed_key(l: Seq<char>, k: Seq<char>)
    requires
        plain_key(k),
        prefixed(l, key_eq(k)),
    ensures
        ini_key(l) == k,
        !top_passthrough(l),
        !sec_passthrough(l),
        !is_header(l),
{
    let n = k.len() as int;
    let w = ws_pred();
    let t = trim_start(l);
    lemma_trail_len_props(t, w);
    let tt = trim(l);
    assert(tt == t.take(t.len() - trail_len(t, w)));
    assert forall|i: int| 0 <= i <= n implies t[i] == key_eq(k)[i] by {
        assert(tt[i] == t[i]);
        assert(tt.take(n + 1)[i] == tt[i]);
    }
    assert forall|j: int| 0 <= j < n implies !occurs_at(t, seq!['='], j) by {
        assert(t.subrange(j, j + 1)[0] == t[j]);
        assert(t[j] == k[j]);
    }
    assert(t[n] == '=');
    assert(t.subrange(n, n + 1) =~= seq!['=']);
    lemma_find_first_is(t, seq!['='], n);
    let key = t.take(n);
    assert(key =~= k);
    lemma_lead_len(key, w, 0);
    lemma_trail_len(key, w, 0);
    assert(key.skip(0) =~= key);
    assert(key.take(n) =~= key);
    assert(trim(key) == key);
    assert(t[0] == k[0]);
    assert(!starts_with(t, seq!['#'])) by {
        if starts_with(t, seq!['#']) {
            assert(t.take(1)[0] == t[0]);
        }
    }
    assert(!starts_with(t, seq![';'])) by {
        if starts_with(t, seq![';']) {
            assert(t.take(1)[0] == t[0]);
        }
    }
    assert(!starts_with(t, seq!['['])) by {
        if starts_with(t, seq!['[']) {
            assert(t.take(1)[0] == t[0]);
        }
    }
    assert(!starts_with(k, seq!['['])) by {
        if starts_with(k, seq!['[']) {
            assert(k.take(1)[0] == k[0]);
        }
    }
}

/// A line `key=v` for another key (no white space first, no `=` in it)
/// never starts with `k=`.
proof fn lemma_other_key_line(key: Seq<char>, v: Seq<char>, k: Seq<char>)
    requires
        plain_key(k),
        key.len() > 0,
        !is_ws(key[0]),
        forall|i: int| 0 <= i < key.len() ==> key[i] != '=',
        key != k,
    ensures
        !prefixed(kv_line(key, v), key_eq(k)),
{
    let n = k.len() as int;
    lemma_kv_trim(key, v);
    let l = kv_line(key, v);
    let t = trim(l);
    if prefixed(l, key_eq(k)) {
        assert(t.take(n + 1) == key_eq(k));
        if key.len() < n {
            assert(t[key.len() as int] == l[key.len() as int]);
            assert(l[key.len() as int] == '=');
            assert(t.take(n + 1)[key.len() as int] == t[key.len() as int]);
            assert(key_eq(k)[key.len() as int] == k[key.len() as int]);
        } else if key.len() == n {
            assert forall|i: int| 0 <= i < n implies key[i] == k[i] by {
                assert(t[i] == l[i]);
                assert(t.take(n + 1)[i] == t[i]);
                assert(key_eq(k)[i] == k[i]);
            }
            assert(key =~= k);
        } else {
            assert(t[n] == l[n]);
            assert(l[n] == key[n]);
            assert(t.take(n + 1)[n] == t[n]);
        }
    }
}

/// What `ini_key` takes from a line: a part of it with no `=`, starting with
/// no white space.
proof fn lemma_key_props(l: Seq<char>)
    ensures
        nl_free(l) ==> nl_free(ini_key(l)),
        forall|i: int| 0 <= i < ini_key(l).len() ==> ini_key(l)[i] != '=',
        ini_key(l).len() > 0 ==> !is_ws(ini_key(l)[0]),
{
    let w = ws_pred();
    lemma_lead_len_props(l, w);
    let a = lead_len(l, w) as int;
    let t = trim_start(l);
    lemma_find_first_props(t, seq!['=']);
    match find_first(t, seq!['=']) {
        Some(i) => {
            let x = t.take(i);
            assert forall|j: int| 0 <= j < x.len() implies x[j] != '=' by {
                assert(!occurs_at(t, seq!['='], j));
                assert(t.subrange(j, j + 1)[0] == t[j]);
                if t[j] == '=' {
                    assert(t.subrange(j, j + 1) =~= seq!['=']);
                }
            }
            lemma_lead_len_props(x, w);
            let b = lead_len(x, w) as int;
            let y = x.skip(b);
            lemma_trail_len_props(y, w);
            let k = trim(x);
            assert(k == y.take(y.len() - trail_len(y, w)));
            assert forall|j: int| 0 <= j < k.len() implies k[j] == l[a + b + j] by {
                assert(k[j] == y[j]);
                assert(y[j] == x[b + j]);
                assert(x[b + j] == t[b + j]);
            }
            if k.len() > 0 {
                assert(k[0] == x[b]);
            }
        },
        None => {},
    }
}

proof fn lemma_least_key(ups: Seq<(Seq<char>, Seq<char>)>, key: Seq<char>, w: int)
    requires
        0 <= w < ups.len(),
        ups[w].0 == key,
    ensures
        exists|i: int|
            0 <= i < ups.len() && ups[i].0 == key && forall|j: int| 0 <= j < i ==> ups[j].0 != key,
    decreases w,
{
    if exists|j: int| 0 <= j < w && ups[j].0 == key {
        let j = choose|j: int| 0 <= j < w && ups[j].0 == key;
        lemma_least_key(ups, key, j);
    }
}

proof fn lemma_first_update_at(ups: Seq<(Seq<char>, Seq<char>)>, key: Seq<char>)
    ensures
        first_update(ups, key) matches Some(i) ==> 0 <= i < ups.len() && ups[i].0 == key,
        ups.len() > 0 && key == ups[0].0 ==> first_update(ups, key) == Some(0int),
{
    if exists|i: int| 0 <= i < ups.len() && ups[i].0 == key {
        let w = choose|i: int| 0 <= i < ups.len() && ups[i].0 == key;
        lemma_least_key(ups, key, w);
        let c = choose|i: int|
            0 <= i < ups.len() && ups[i].0 == key && forall|j: int| 0 <= j < i ==> ups[j].0 != key;
        assert(first_update(ups, key) == Some(c));
        if ups.len() > 0 && key == ups[0].0 && c > 0 {
            assert(ups[0].0 != key);
        }
    }
}

proof fn lemma_kv_nl_free(k: Seq<char>, v: Seq<char>)
    requires
        nl_free(k),
        nl_free(v),
    ensures
        nl_free(kv_line(k, v)),
{
    let l = kv_line(k, v);
    assert forall|j: int| 0 <= j < l.len() implies l[j] != '\n' by {
        if j < k.len() {
            assert(l[j] == k[j]);
        } else if j > k.len() {
            assert(l[j] == v[j - k.len() - 1]);
        }
    }
}

/// The keys the npm and pip writers set are plain keys.
proof fn lemma_writer_keys()
    ensures
        plain_key("registry"@),
        key_eq("registry"@) == "registry="@,
        nl_free("registry"@),
        plain_key("index-url"@),
        key_eq("index-url"@) == "index-url="@,
        nl_free("index-url"@),
{
    reveal_strlit("registry");
    reveal_strlit("registry=");
    reveal_strlit("index-url");
    reveal_strlit("index-url=");
    assert(is_ws('r') == false);
    assert(key_eq("registry"@) =~= "registry="@);
    assert(key_eq("index-url"@) =~= "index-url="@);
}

/// The lines a top-level merge keeps or writes: none holds a newline, every
/// one that starts with `k=` is the line setting the first update (whose
/// key is `k`), and that line is there once the key was met.
proof fn lemma_top_run_key(ls: Seq<Seq<char>>, ups: Seq<(Seq<char>, Seq<char>)>, k: Seq<char>)
    requires
        plain_key(k),
        nl_free(k),
        ups.len() > 0,
        ups[0].0 == k,
        forall|i: int| 0 <= i < ls.len() ==> nl_free(#[trigger] ls[i]),
        forall|i: int| 0 <= i < ups.len() ==> nl_free(#[trigger] ups[i].1),
    ensures
        ({
            let r = top_run(ls, ups, Seq::empty());
            let reg = kv_line(k, ups[0].1);
            &&& forall|i: int| 0 <= i < r.0.len() ==> nl_free(#[trigger] r.0[i])
            &&& forall|i: int|
                0 <= i < r.0.len() && prefixed(#[trigger] r.0[i], key_eq(k)) ==> r.0[i] == reg
                    && r.1.contains(k)
            &&& r.1.contains(k) ==> exists|i: int| 0 <= i < r.0.len() && r.0[i] == reg
        }),
    decreases ls.len(),
{
    if ls.len() > 0 {
        let d = ls.drop_last();
        assert forall|i: int| 0 <= i < d.len() implies nl_free(#[trigger] d[i]) by {
            assert(d[i] == ls[i]);
        }
        lemma_top_run_key(d, ups, k);
        let prev = top_run(d, ups, Seq::empty());
        let l = ls.last();
        assert(l == ls[ls.len() - 1]);
        let r = top_run(ls, ups, Seq::empty());
        let reg = kv_line(k, ups[0].1);
        lemma_kv_nl_free(k, ups[0].1);
        if top_passthrough(l) {
            assert(r.0 == prev.0.push(l));
            if prefixed(l, key_eq(k)) {
                lemma_prefixed_key(l, k);
            }
            if r.1.contains(k) {
                let w = choose|i: int| 0 <= i < prev.0.len() && prev.0[i] == reg;
                assert(r.0[w] == reg);
            }
        } else {
            let key = ini_key(l);
            lemma_key_props(l);
            lemma_first_update_at(ups, key);
            if prefixed(l, key_eq(k)) {
                lemma_prefixed_key(l, k);
            }
            match first_update(ups, key) {
                Some(i) => {
                    let line = kv_line(key, ups[i].1);
                    assert(r.0 == prev.0.push(line));
                    assert(r.1 == prev.1.push(key));
                    lemma_kv_nl_free(key, ups[i].1);
                    if key == k {
                        assert(i == 0);
                        assert(line == reg);
                        assert(r.1[r.1.len() - 1] == key);
                        assert forall|j: int|
                            0 <= j < r.0.len() && prefixed(#[trigger] r.0[j], key_eq(k)) implies r.0[j]
                            == reg && r.1.contains(k) by {
                            if j < prev.0.len() {
                                assert(r.0[j] == prev.0[j]);
                            }
                        }
                        assert(r.0[r.0.len() - 1] == reg);
                    } else {
                        lemma_other_key_line(key, ups[i].1, k);
                        assert forall|j: int|
                            0 <= j < r.0.len() && prefixed(#[trigger] r.0[j], key_eq(k)) implies r.0[j]
                            == reg && r.1.contains(k) by {
                            assert(j < prev.0.len());
                            assert(r.0[j] == prev.0[j]);
                            assert(prev.1.contains(k));
                            let w = choose|q: int| 0 <= q < prev.1.len() && prev.1[q] == k;
                            assert(r.1[w] == k);
                        }
                        if r.1.contains(k) {
                            let w = choose|q: int| 0 <= q < r.1.len() && r.1[q] == k;
                            assert(w < prev.1.len());
                            assert(prev.1[w] == k);
                            let x = choose|q: int| 0 <= q < prev.0.len() && prev.0[q] == reg;
                            assert(r.0[x] == reg);
                        }
                    }
                },
                None => {
                    assert(!Seq::<Seq<char>>::empty().contains(key));
                    assert(r.0 == prev.0.push(l));
                    assert(r.1 == prev.1);
                    if r.1.contains(k) {
                        let x = choose|q: int| 0 <= q < prev.0.len() && prev.0[q] == reg;
                        assert(r.0[x] == reg);
                    }
                },
            }
        }
    }
}

/// When the first update's key was not met, its line comes first among the
/// appended ones.
proof fn lemma_unseen_first(ups: Seq<(Seq<char>, Seq<char>)>, seen: Seq<Seq<char>>)
    requires
        ups.len() > 0,
        !seen.contains(ups[0].0),
    ensures
        unseen_lines(ups, seen).len() > 0,
        unseen_lines(ups, seen)[0] == kv_line(ups[0].0, ups[0].1),
    decreases ups.len(),
{
    if ups.len() > 1 {
        let d = ups.drop_last();
        assert(d[0] == ups[0]);
        lemma_unseen_first(d, seen);
    } else {
        assert(ups.last() == ups[0]);
        assert(unseen_lines(ups.drop_last(), seen) =~= Seq::<Seq<char>>::empty());
    }
}

/// The first line starting with `pre` is found when some line does and
/// every such line trims to `t`.
proof fn lemma_first_prefixed_found(x: Seq<Seq<char>>, pre: Seq<char>, t: Seq<char>, w: int)
    requires
        0 <= w < x.len(),
        prefixed(x[w], pre),
        forall|i: int| 0 <= i < x.len() && prefixed(#[trigger] x[i], pre) ==> trim(x[i]) == t,
    ensures
        first_prefixed(x, pre) == Some(trim(t.skip(pre.len() as int))),
    decreases w,
{
    if !prefixed(x[0], pre) {
        let d = x.drop_first();
        assert forall|i: int| 0 <= i < d.len() && prefixed(#[trigger] d[i], pre) implies trim(d[i])
            == t by {
            assert(d[i] == x[i + 1]);
        }
        assert(d[w - 1] == x[w]);
        lemma_first_prefixed_found(d, pre, t, w - 1);
    }
}

proof fn lemma_first_prefixed_concat(x: Seq<Seq<char>>, y: Seq<Seq<char>>, pre: Seq<char>)
    requires
        first_prefixed(x, pre) is Some,
    ensures
        first_prefixed(x + y, pre) == first_prefixed(x, pre),
    decreases x.len(),
{
    assert((x + y)[0] == x[0]);
    if !prefixed(x[0], pre) {
        assert((x + y).drop_first() =~= x.drop_first() + y);
        lemma_first_prefixed_concat(x.drop_first(), y, pre);
    }
}

/// `k=v` starts with `k=` and reads back as `v` trimmed.
proof fn lemma_kv_line_read(k: Seq<char>, v: Seq<char>)
    requires
        plain_key(k),
    ensures
        prefixed(kv_line(k, v), key_eq(k)),
        trim(trim(kv_line(k, v)).skip(key_eq(k).len() as int)) == trim(v),
{
    lemma_kv_trim(k, v);
    let t = trim(kv_line(k, v));
    assert forall|i: int| 0 <= i <= k.len() implies t.take(k.len() + 1int)[i] == key_eq(k)[i] by {
        assert(t[i] == kv_line(k, v)[i]);
    }
    assert(t.take(k.len() + 1int) =~= key_eq(k));
}

/// Lines written with `reg` among newline-free first lines, where every
/// line starting with `pre` is `reg`, read back with `reg` as the first line
/// starting with `pre`.
proof fn lemma_read_back_lines(
    x: Seq<Seq<char>>,
    y: Seq<Seq<char>>,
    pre: Seq<char>,
    reg: Seq<char>,
    w: int,
)
    requires
        0 <= w < x.len(),
        x[w] == reg,
        prefixed(reg, pre),
        forall|i: int| 0 <= i < x.len() ==> nl_free(#[trigger] x[i]),
        forall|i: int| 0 <= i < x.len() && prefixed(#[trigger] x[i], pre) ==> x[i] == reg,
    ensures
        first_prefixed(lines(join(x + y, seq!['\n']).push('\n')), pre) == Some(
            trim(trim(reg).skip(pre.len() as int)),
        ),
{
    lemma_lines_join(x, y);
    let xm = x.map_values(|t: Seq<char>| strip_cr(t));
    assert forall|i: int| 0 <= i < xm.len() && prefixed(#[trigger] xm[i], pre) implies trim(xm[i])
        == trim(reg) by {
        lemma_trim_strip_cr(x[i]);
    }
    lemma_trim_strip_cr(x[w]);
    lemma_first_prefixed_found(xm, pre, trim(reg), w);
    lemma_first_prefixed_concat(
        xm,
        if y.len() == 0 {
            Seq::<Seq<char>>::empty()
        } else {
            lines(join(y, seq!['\n']).push('\n'))
        },
        pre,
    );
}

/// npm: after a preset is merged into `.npmrc`, the registry read back is
/// the preset's URL (trimmed, as reading trims). This holds when the URL
/// and the values of the preset's extra settings hold no newline; a URL
/// with a newline is read back cut at it.
pub proof fn lemma_npm_reads_back(content: Seq<char>, p: RegistryPreset)
    requires
        nl_free(p.url@),
        forall|i: int| 0 <= i < p.extra@.len() ==> nl_free(#[trigger] p.extra@[i].1@),
    ensures
        first_prefixed(
            lines(merged_ini(content, preset_updates("registry"@, p), Seq::empty())),
            "registry="@,
        ) == Some(trim(p.url@)),
{
    lemma_writer_keys();
    let k = "registry"@;
    let pre = key_eq(k);
    let ups = preset_updates(k, p);
    assert(ups[0] == (k, p.url@));
    assert forall|i: int| 0 <= i < ups.len() implies nl_free(#[trigger] ups[i].1) by {
        if i > 0 {
            assert(ups[i].1 == p.extra@[i - 1].1@);
        }
    }
    let ls = lines(content);
    lemma_lines_nl_free(content);
    lemma_top_run_key(ls, ups, k);
    let r = top_run(ls, ups, Seq::empty());
    let top = r.0;
    let reg = kv_line(k, p.url@);
    lemma_kv_line_read(k, p.url@);
    lemma_kv_nl_free(k, p.url@);
    let un = unseen_lines(ups, r.1);
    let all = top + un;
    let x: Seq<Seq<char>>;
    let y: Seq<Seq<char>>;
    let w: int;
    if r.1.contains(k) {
        w = choose|i: int| 0 <= i < top.len() && top[i] == reg;
        x = top;
        y = un;
    } else {
        lemma_unseen_first(ups, r.1);
        assert(un[0] == reg);
        w = top.len() as int;
        x = top.push(reg);
        y = un.drop_first();
        assert(all =~= x + y);
        assert forall|i: int| 0 <= i < top.len() implies !prefixed(#[trigger] top[i], pre) by {
        }
    }
    assert(all =~= x + y);
    assert(x[w] == reg);
    assert forall|i: int| 0 <= i < x.len() implies nl_free(#[trigger] x[i]) by {
        if i < top.len() {
            assert(x[i] == top[i]);
        }
    }
    lemma_read_back_lines(x, y, pre, reg, w);
    assert(all.len() > 0);
}

/// The header of the target section.
pub open spec fn target_header(l: Seq<char>, sec: Seq<char>) -> bool {
    is_header(l) && header_name(l) == lower(sec)
}

pub open spec fn no_prefixed(out: Seq<Seq<char>>, pre: Seq<char>) -> bool {
    forall|i: int| 0 <= i < out.len() ==> !prefixed(#[trigger] out[i], pre)
}

pub open spec fn all_nl_free(out: Seq<Seq<char>>) -> bool {
    forall|i: int| 0 <= i < out.len() ==> nl_free(#[trigger] out[i])
}

/// `reg` is written, and every line up to it is newline-free and the lines
/// before it do not start with `pre`.
pub open spec fn placed(out: Seq<Seq<char>>, reg: Seq<char>, pre: Seq<char>) -> bool {
    exists|i: int|
        0 <= i < out.len() && out[i] == reg && all_nl_free(out.take(i + 1)) && no_prefixed(
            out.take(i),
            pre,
        )
}

/// Every line starting with `pre` comes after a header of the target section.
pub open spec fn set_under_target(ls: Seq<Seq<char>>, sec: Seq<char>, pre: Seq<char>) -> bool {
    forall|i: int|
        0 <= i < ls.len() && prefixed(#[trigger] ls[i], pre) ==> exists|j: int|
            0 <= j < i && target_header(ls[j], sec)
}

/// What a section merge keeps: before the target section every line stays
/// and none starts with `k=`; inside it, until `k` is met, nothing starting
/// with `k=` is written; then the line setting `k` is written.
pub open spec fn sec_ok(st: SecState, ls: Seq<Seq<char>>, sec: Seq<char>, k: Seq<char>, reg: Seq<char>) -> bool {
    let pre = key_eq(k);
    &&& !st.found ==> {
        &&& !st.inside
        &&& st.seen.len() == 0
        &&& no_prefixed(st.out, pre)
        &&& all_nl_free(st.out)
        &&& forall|j: int| 0 <= j < ls.len() ==> !target_header(#[trigger] ls[j], sec)
    }
    &&& st.found ==> (placed(st.out, reg, pre) || (st.inside && !st.seen.contains(k) && no_prefixed(
        st.out,
        pre,
    ) && all_nl_free(st.out)))
}

proof fn lemma_placed_grows(out: Seq<Seq<char>>, more: Seq<Seq<char>>, reg: Seq<char>, pre: Seq<char>)
    requires
        placed(out, reg, pre),
    ensures
        placed(out + more, reg, pre),
{
    let i = choose|i: int|
        0 <= i < out.len() && out[i] == reg && all_nl_free(out.take(i + 1)) && no_prefixed(
            out.take(i),
            pre,
        );
    assert((out + more).take(i + 1) =~= out.take(i + 1));
    assert((out + more).take(i) =~= out.take(i));
    assert((out + more)[i] == reg);
}

proof fn lemma_placed_at(out: Seq<Seq<char>>, reg: Seq<char>, pre: Seq<char>)
    requires
        no_prefixed(out, pre),
        all_nl_free(out),
        nl_free(reg),
    ensures
        placed(out.push(reg), reg, pre),
{
    let n = out.len() as int;
    let o = out.push(reg);
    assert(o.take(n) =~= out);
    assert forall|j: int| 0 <= j < o.take(n + 1).len() implies nl_free(#[trigger] o.take(n + 1)[j]) by {
        if j < n {
            assert(o.take(n + 1)[j] == out[j]);
        }
    }
    assert(o[n] == reg);
}

proof fn lemma_sec_run_key(
    ls: Seq<Seq<char>>,
    sec: Seq<char>,
    ups: Seq<(Seq<char>, Seq<char>)>,
    k: Seq<char>,
)
    requires
        plain_key(k),
        nl_free(k),
        ups.len() > 0,
        ups[0].0 == k,
        forall|i: int| 0 <= i < ups.len() ==> nl_free(#[trigger] ups[i].1),
        all_nl_free(ls),
        set_under_target(ls, sec, key_eq(k)),
    ensures
        sec_ok(sec_run(ls, sec, ups, Seq::empty()), ls, sec, k, kv_line(k, ups[0].1)),
    decreases ls.len(),
{
    if ls.len() > 0 {
        let pre = key_eq(k);
        let reg = kv_line(k, ups[0].1);
        let rms = Seq::<Seq<char>>::empty();
        let d = ls.drop_last();
        assert forall|i: int| 0 <= i < d.len() implies nl_free(#[trigger] d[i]) by {
            assert(d[i] == ls[i]);
        }
        assert forall|i: int| 0 <= i < d.len() && prefixed(#[trigger] d[i], pre) implies exists|j: int|
            0 <= j < i && target_header(d[j], sec) by {
            assert(d[i] == ls[i]);
            let j = choose|j: int| 0 <= j < i && target_header(ls[j], sec);
            assert(d[j] == ls[j]);
        }
        lemma_sec_run_key(d, sec, ups, k);
        let st = sec_run(d, sec, ups, rms);
        let l = ls.last();
        assert(l == ls[ls.len() - 1]);
        assert(nl_free(l));
        let n = sec_run(ls, sec, ups, rms);
        assert(n == sec_step(st, l, sec, ups, rms));
        lemma_kv_nl_free(k, ups[0].1);
        if prefixed(l, pre) {
            lemma_prefixed_key(l, k);
        }
        if st.found && placed(st.out, reg, pre) {
            // whatever the step writes comes after
            if is_header(l) {
                if header_name(l) == lower(sec) {
                    lemma_placed_grows(st.out, seq![l], reg, pre);
                    assert(n.out =~= st.out + seq![l]);
                } else if st.inside {
                    lemma_placed_grows(st.out, unseen_lines(ups, st.seen).push(l), reg, pre);
                    assert(n.out =~= st.out + unseen_lines(ups, st.seen).push(l));
                } else {
                    lemma_placed_grows(st.out, seq![l], reg, pre);
                    assert(n.out =~= st.out + seq![l]);
                }
            } else if !st.inside || sec_passthrough(l) {
                lemma_placed_grows(st.out, seq![l], reg, pre);
                assert(n.out =~= st.out + seq![l]);
            } else {
                let key = ini_key(l);
                lemma_first_update_at(ups, key);
                match first_update(ups, key) {
                    Some(i) => {
                        let line = kv_line(key, ups[i].1);
                        lemma_placed_grows(st.out, seq![line], reg, pre);
                        assert(n.out =~= st.out + seq![line]);
                    },
                    None => {
                        lemma_placed_grows(st.out, seq![l], reg, pre);
                        assert(n.out =~= st.out + seq![l]);
                    },
                }
            }
        } else if !st.found {
            // before the target section
            if target_header(l, sec) {
                assert(!prefixed(l, pre));
                assert(n.out == st.out.push(l));
                assert(n.inside && n.found && n.seen == st.seen);
                assert(!n.seen.contains(k));
            } else if is_header(l) {
                assert(!prefixed(l, pre));
                assert(n.out == st.out.push(l));
            } else {
                assert(n.out == st.out.push(l));
                if prefixed(l, pre) {
                    let j = choose|j: int| 0 <= j < ls.len() - 1 && target_header(ls[j], sec);
                    assert(d[j] == ls[j]);
                }
            }
            assert forall|i: int| 0 <= i < n.out.len() implies !prefixed(#[trigger] n.out[i], pre) && nl_free(n.out[i]) by {
                if i < st.out.len() {
                    assert(n.out[i] == st.out[i]);
                }
            }
            if !n.found {
                assert forall|j: int| 0 <= j < ls.len() implies !target_header(#[trigger] ls[j], sec) by {
                    if j < d.len() {
                        assert(d[j] == ls[j]);
                    }
                }
            }
        } else {
            // inside the target section, the key not met yet
            assert(st.inside && !st.seen.contains(k) && no_prefixed(st.out, pre) && all_nl_free(st.out));
            if is_header(l) {
                assert(!prefixed(l, pre));
                if header_name(l) == lower(sec) {
                    assert(n.out == st.out.push(l));
                    assert forall|i: int| 0 <= i < n.out.len() implies !prefixed(#[trigger] n.out[i], pre)
                        && nl_free(n.out[i]) by {
                        if i < st.out.len() {
                            assert(n.out[i] == st.out[i]);
                        }
                    }
                } else {
                    lemma_unseen_first(ups, st.seen);
                    let u = unseen_lines(ups, st.seen);
                    lemma_placed_at(st.out, reg, pre);
                    lemma_placed_grows(st.out.push(reg), u.drop_first().push(l), reg, pre);
                    assert(n.out =~= st.out.push(reg) + u.drop_first().push(l));
                }
            } else if sec_passthrough(l) {
                assert(!prefixed(l, pre));
                assert(n.out == st.out.push(l));
                assert forall|i: int| 0 <= i < n.out.len() implies !prefixed(#[trigger] n.out[i], pre)
                    && nl_free(n.out[i]) by {
                    if i < st.out.len() {
                        assert(n.out[i] == st.out[i]);
                    }
                }
            } else {
                let key = ini_key(l);
                lemma_key_props(l);
                lemma_first_update_at(ups, key);
                match first_update(ups, key) {
                    Some(i) => {
                        let line = kv_line(key, ups[i].1);
                        assert(n.out == st.out.push(line));
                        assert(n.seen == st.seen.push(key));
                        if key == k {
                            assert(i == 0);
                            lemma_placed_at(st.out, reg, pre);
                        } else {
                            lemma_other_key_line(key, ups[i].1, k);
                            lemma_kv_nl_free(key, ups[i].1);
                            assert(!n.seen.contains(k)) by {
                                if n.seen.contains(k) {
                                    let w = choose|q: int| 0 <= q < n.seen.len() && n.seen[q] == k;
                                    assert(w < st.seen.len());
                                    assert(st.seen[w] == k);
                                }
                            }
                            assert forall|q: int| 0 <= q < n.out.len() implies !prefixed(#[trigger] n.out[q], pre)
                                && nl_free(n.out[q]) by {
                                if q < st.out.len() {
                                    assert(n.out[q] == st.out[q]);
                                }
                            }
                        }
                    },
                    None => {
                        assert(!rms.contains(key));
                        assert(n.out == st.out.push(l));
                        assert(n.seen == st.seen);
                        assert forall|q: int| 0 <= q < n.out.len() implies !prefixed(#[trigger] n.out[q], pre)
                            && nl_free(n.out[q]) by {
                            if q < st.out.len() {
                                assert(n.out[q] == st.out[q]);
                            }
                        }
                    },
                }
            }
        }
    }
}

/// A piece holding a newline joins like the two pieces around it.
proof fn lemma_join_split_piece(
    a: Seq<Seq<char>>,
    u: Seq<char>,
    v: Seq<char>,
    c: Seq<Seq<char>>,
)
    requires
        c.len() > 0,
    ensures
        join(a.push(u + seq!['\n'] + v) + c, seq!['\n']) == join(a + seq![u, v] + c, seq!['\n']),
{
    let nl = seq!['\n'];
    let s = u + nl + v;
    lemma_join_concat(seq![s], c, nl);
    lemma_join_concat(seq![u, v], c, nl);
    assert(join(seq![u, v], nl) == join(seq![u], nl) + nl + v) by {
        assert(seq![u, v].drop_last() =~= seq![u]);
    }
    assert(join(seq![s] + c, nl) == join(seq![u, v] + c, nl));
    if a.len() > 0 {
        lemma_join_concat(a, seq![s] + c, nl);
        lemma_join_concat(a, seq![u, v] + c, nl);
        assert(a.push(s) + c =~= a + (seq![s] + c));
        assert(a + seq![u, v] + c =~= a + (seq![u, v] + c));
    } else {
        assert(a.push(s) + c =~= seq![s] + c);
        assert(a + seq![u, v] + c =~= seq![u, v] + c);
    }
}

/// pip: after a preset is merged into the `[global]` section of
/// `pip.conf`, the index read back is the preset's URL (trimmed, as reading
/// trims). Reading takes the first `index-url=` line of the whole file, so
/// this holds when every such line of the file comes after a `[global]`
/// header, and the URL and the values of the preset's extra settings hold
/// no newline; an `index-url=` line before `[global]` (say in `[install]`)
/// is what reading finds instead.
pub proof fn lemma_pip_reads_back(content: Seq<char>, p: RegistryPreset)
    requires
        nl_free(p.url@),
        forall|i: int| 0 <= i < p.extra@.len() ==> nl_free(#[trigger] p.extra@[i].1@),
        set_under_target(lines(content), "global"@, "index-url="@),
    ensures
        first_prefixed(
            lines(merged_ini_section(content, "global"@, preset_updates("index-url"@, p), Seq::empty())),
            "index-url="@,
        ) == Some(trim(p.url@)),
{
    lemma_writer_keys();
    let k = "index-url"@;
    let pre = key_eq(k);
    let sec = "global"@;
    let ups = preset_updates(k, p);
    assert(ups[0] == (k, p.url@));
    assert forall|i: int| 0 <= i < ups.len() implies nl_free(#[trigger] ups[i].1) by {
        if i > 0 {
            assert(ups[i].1 == p.extra@[i - 1].1@);
        }
    }
    let ls = lines(content);
    lemma_lines_nl_free(content);
    lemma_sec_run_key(ls, sec, ups, k);
    let st = sec_run(ls, sec, ups, Seq::empty());
    let reg = kv_line(k, p.url@);
    lemma_kv_line_read(k, p.url@);
    lemma_kv_nl_free(k, p.url@);
    let u = unseen_lines(ups, st.seen);
    let a = if st.inside {
        st.out + u
    } else {
        st.out
    };
    let hdr = seq!['\n', '['] + sec + seq![']'];
    let w = if !st.found {
        a.push(hdr) + u
    } else {
        a
    };
    assert(merged_ini_section(content, sec, ups, Seq::empty()) == join(w, seq!['\n']).push('\n'));
    if st.found && placed(st.out, reg, pre) {
        let i = choose|i: int|
            0 <= i < st.out.len() && st.out[i] == reg && all_nl_free(st.out.take(i + 1))
                && no_prefixed(st.out.take(i), pre);
        let x = st.out.take(i + 1);
        let y = w.skip(i + 1);
        assert(w =~= x + y);
        assert forall|j: int| 0 <= j < x.len() && prefixed(#[trigger] x[j], pre) implies x[j] == reg by {
            if j < i {
                assert(st.out.take(i)[j] == x[j]);
            }
        }
        lemma_read_back_lines(x, y, pre, reg, i);
    } else if st.found {
        lemma_unseen_first(ups, st.seen);
        let x = st.out.push(reg);
        let y = u.drop_first();
        assert(w =~= x + y);
        assert forall|j: int| 0 <= j < x.len() implies nl_free(#[trigger] x[j]) by {
            if j < st.out.len() {
                assert(x[j] == st.out[j]);
            }
        }
        assert forall|j: int| 0 <= j < x.len() && prefixed(#[trigger] x[j], pre) implies x[j] == reg by {
            if j < st.out.len() {
                assert(x[j] == st.out[j]);
            }
        }
        lemma_read_back_lines(x, y, pre, reg, st.out.len() as int);
    } else {
        assert(st.seen.len() == 0);
        assert(!st.seen.contains(k));
        lemma_unseen_first(ups, st.seen);
        let h2 = seq!['['] + sec + seq![']'];
        assert(hdr =~= Seq::<char>::empty() + seq!['\n'] + h2);
        lemma_join_split_piece(st.out, Seq::<char>::empty(), h2, u);
        let x = st.out + seq![Seq::<char>::empty(), h2, reg];
        let y = u.drop_first();
        assert(st.out + seq![Seq::<char>::empty(), h2] + u =~= x + y);
        reveal_strlit("global");
        assert(h2[0] == '[');
        assert(!prefixed(h2, pre)) by {
            assert(!is_ws('['));
            lemma_lead_len(h2, ws_pred(), 0);
            assert(h2.skip(0) =~= h2);
            lemma_trail_len_props(h2, ws_pred());
            if prefixed(h2, pre) {
                assert(trim(h2)[0] == h2[0]);
                assert(trim(h2).take(pre.len() as int)[0] == trim(h2)[0]);
                assert(pre[0] == k[0]);
            }
        }
        assert(!prefixed(Seq::<char>::empty(), pre)) by {
            lemma_trail_len_props(Seq::<char>::empty(), ws_pred());
        }
        assert forall|j: int| 0 <= j < x.len() implies nl_free(#[trigger] x[j]) by {
            if j < st.out.len() {
                assert(x[j] == st.out[j]);
            }
        }
        assert forall|j: int| 0 <= j < x.len() && prefixed(#[trigger] x[j], pre) implies x[j] == reg by {
            if j < st.out.len() {
                assert(x[j] == st.out[j]);
            }
        }
        lemma_read_back_lines(x, y, pre, reg, st.out.len() + 2int);
    }
}

} // verus!
