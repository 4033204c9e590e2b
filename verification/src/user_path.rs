//! The user-level PATH of Windows (`HKCU\Environment`, entries separated by
//! `;`): entries EnvHive manages are taken out, new entries go in front, and
//! the user's other entries keep their order. Entries compare trimmed,
//! without trailing separators and ignoring ASCII case.

use vstd::prelude::*;

use crate::text::{
    chars_of, chars_of_string, eq, join, join_v, lower, slice_of, split_on, split_on_v,
    starts_with, starts_with_v, strip_trail, strip_trail_v, to_lower, to_string, trail_len,
    lemma_trail_len, trim, trim_v, views,
};

verus! {

pub open spec fn sep_pred() -> spec_fn(char) -> bool {
    |c: char| c == '\\' || c == '/'
}

/// `trim_end_matches(['\\', '/'])`.
pub open spec fn strip_seps(s: Seq<char>) -> Seq<char> {
    s.take(s.len() - trail_len(s, sep_pred()))
}

/// What an entry is compared by.
pub open spec fn entry_key(p: Seq<char>) -> Seq<char> {
    lower(strip_seps(trim(p)))
}

/// What the managed prefix is compared by (not trimmed).
pub open spec fn prefix_key(prefix: Seq<char>) -> Seq<char> {
    lower(strip_seps(prefix))
}

pub open spec fn blank(p: Seq<char>) -> bool {
    trim(p).len() == 0
}

/// The entries kept: not blank and not under the managed prefix.
pub open spec fn kept_parts(ps: Seq<Seq<char>>, pk: Seq<char>) -> Seq<Seq<char>>
    decreases ps.len(),
{
    if ps.len() == 0 {
        Seq::empty()
    } else {
        let acc = kept_parts(ps.drop_last(), pk);
        let p = ps.last();
        if !blank(p) && !starts_with(entry_key(p), pk) {
            acc.push(p)
        } else {
            acc
        }
    }
}

/// Some entry of `ps` compares equal to key `k`.
pub open spec fn key_in(ps: Seq<Seq<char>>, k: Seq<char>) -> bool {
    exists|i: int| 0 <= i < ps.len() && entry_key(ps[i]) == k
}

/// The entries to add, in order: not blank, and not equal to a kept entry or
/// to one added before.
pub open spec fn new_entries(add: Seq<Seq<char>>, kept: Seq<Seq<char>>) -> Seq<Seq<char>>
    decreases add.len(),
{
    if add.len() == 0 {
        Seq::empty()
    } else {
        let acc = new_entries(add.drop_last(), kept);
        let p = add.last();
        if blank(p) || key_in(kept, entry_key(p)) || key_in(acc, entry_key(p)) {
            acc
        } else {
            acc.push(p)
        }
    }
}

/// The entries of the PATH after an update.
pub open spec fn updated_entries(current: Seq<char>, add: Seq<Seq<char>>, prefix: Seq<char>) -> Seq<
    Seq<char>,
> {
    let kept = kept_parts(split_on(current, ';'), prefix_key(prefix));
    new_entries(add, kept) + kept
}

/// The entries of the PATH once the managed ones are removed.
pub open spec fn pruned_entries(current: Seq<char>, prefix: Seq<char>) -> Seq<Seq<char>> {
    kept_parts(split_on(current, ';'), prefix_key(prefix))
}

fn strip_seps_v(s: &Vec<char>) -> (r: Vec<char>)
    ensures
        r@ == strip_seps(s@),
{
    let mut k: usize = 0;
    while k < s.len() && (s[s.len() - k - 1] == '\\' || s[s.len() - k - 1] == '/')
        invariant
            k <= s.len(),
            forall|i: int| s.len() - k <= i < s.len() ==> (s@[i] == '\\' || s@[i] == '/'),
        decreases s.len() - k,
    {
        k = k + 1;
    }
    proof {
        lemma_trail_len(s@, sep_pred(), k as int);
    }
    slice_of(s, 0, s.len() - k)
}

fn entry_key_v(p: &Vec<char>) -> (r: Vec<char>)
    ensures
        r@ == entry_key(p@),
{
    to_lower(&strip_seps_v(&trim_v(p)))
}

fn has_key(ps: &Vec<Vec<char>>, k: &Vec<char>) -> (r: bool)
    ensures
        r == key_in(views(ps@), k@),
{
    let mut i: usize = 0;
    while i < ps.len()
        invariant
            i <= ps.len(),
            forall|j: int| 0 <= j < i ==> entry_key(ps@[j]@) != k@,
        decreases ps.len() - i,
    {
        if eq(&entry_key_v(&ps[i]), k) {
            assert(views(ps@)[i as int] == ps@[i as int]@);
            return true;
        }
        i = i + 1;
    }
    proof {
        if key_in(views(ps@), k@) {
            let w = choose|j: int| 0 <= j < views(ps@).len() && entry_key(views(ps@)[j]) == k@;
            assert(views(ps@)[w] == ps@[w]@);
        }
    }
    false
}

fn kept_parts_v(current: &str, prefix: &str) -> (r: Vec<Vec<char>>)
    ensures
        views(r@) == pruned_entries(current@, prefix@),
{
    let pk = to_lower(&strip_seps_v(&chars_of(prefix)));
    let parts = split_on_v(&chars_of(current), ';');
    let ghost ps = views(parts@);
    let mut kept: Vec<Vec<char>> = Vec::new();
    let mut i: usize = 0;
    while i < parts.len()
        invariant
            i <= parts.len(),
            ps == views(parts@),
            pk@ == prefix_key(prefix@),
            views(kept@) == kept_parts(ps.take(i as int), pk@),
        decreases parts.len() - i,
    {
        let p = &parts[i];
        assert(ps.take(i + 1).drop_last() =~= ps.take(i as int));
        assert(ps.take(i + 1).last() == p@);
        let t = trim_v(p);
        if t.len() > 0 && !starts_with_v(&entry_key_v(p), &pk) {
            let ghost before = views(kept@);
            kept.push(slice_of(p, 0, p.len()));
            assert(p@.subrange(0, p@.len() as int) =~= p@);
            assert(views(kept@) =~= before.push(p@));
        }
        i = i + 1;
    }
    assert(ps.take(ps.len() as int) =~= ps);
    kept
}

fn semicolon() -> (r: Vec<char>)
    ensures
        r@ == ";"@,
{
    chars_of(";")
}

/// The new user PATH: entries under `remove_prefix` removed, the non-blank
/// entries of `add` that are not there yet put in front.
pub fn update_user_path(current: &str, add: &[String], remove_prefix: &str) -> (r: String)
    ensures
        r@ == join(updated_entries(current@, add@.map_values(|s: String| s@), remove_prefix@), ";"@),
{
    let kept = kept_parts_v(current, remove_prefix);
    let ghost kv = views(kept@);
    let ghost av = add@.map_values(|s: String| s@);
    let mut added: Vec<Vec<char>> = Vec::new();
    let mut i: usize = 0;
    while i < add.len()
        invariant
            i <= add.len(),
            kv == views(kept@),
            av == add@.map_values(|s: String| s@),
            views(added@) == new_entries(av.take(i as int), kv),
        decreases add.len() - i,
    {
        let p = chars_of_string(&add[i]);
        assert(av.take(i + 1).drop_last() =~= av.take(i as int));
        assert(av.take(i + 1).last() == p@);
        let n = entry_key_v(&p);
        if trim_v(&p).len() > 0 && !has_key(&kept, &n) && !has_key(&added, &n) {
            let ghost before = views(added@);
            added.push(p);
            assert(views(added@) =~= before.push(av[i as int]));
        }
        i = i + 1;
    }
    assert(av.take(add.len() as int) =~= av);
    let ghost before = views(added@);
    let mut k: usize = 0;
    while k < kept.len()
        invariant
            k <= kept.len(),
            kv == views(kept@),
            views(added@) == before + kv.take(k as int),
        decreases kept.len() - k,
    {
        let ghost b = views(added@);
        added.push(slice_of(&kept[k], 0, kept[k].len()));
        assert(kept@[k as int]@.subrange(0, kept@[k as int]@.len() as int) =~= kept@[k as int]@);
        assert(views(added@) =~= b.push(kv[k as int]));
        assert(kv.take(k + 1) =~= kv.take(k as int).push(kv[k as int]));
        k = k + 1;
    }
    assert(kv.take(kept.len() as int) =~= kv);
    to_string(&join_v(&added, &semicolon()))
}

/// The user PATH without the entries under `remove_prefix` (and without
/// blank entries).
pub fn remove_from_user_path(current: &str, remove_prefix: &str) -> (r: String)
    ensures
        r@ == join(pruned_entries(current@, remove_prefix@), ";"@),
{
    let kept = kept_parts_v(current, remove_prefix);
    to_string(&join_v(&kept, &semicolon()))
}

/// The user PATH with a tool's `bin` directory (trailing `\` removed) in
/// front and the other managed entries removed.
pub fn ensure_bin_in_path(current: &str, bin_dir: &str, remove_prefix: &str) -> (r: String)
    ensures
        r@ == join(
            updated_entries(current@, seq![strip_trail(bin_dir@, '\\')], remove_prefix@),
            ";"@,
        ),
{
    let b = strip_trail_v(&chars_of(bin_dir), '\\');
    let v: Vec<String> = vec![to_string(&b)];
    assert(v@.map_values(|s: String| s@) =~= seq![strip_trail(bin_dir@, '\\')]);
    update_user_path(current, v.as_slice(), remove_prefix)
}

/// No entry left in the PATH is blank or under the managed prefix, and
/// every other entry of the current PATH stays.
pub proof fn lemma_pruned_entries(ps: Seq<Seq<char>>, pk: Seq<char>)
    ensures
        forall|i: int|
            0 <= i < kept_parts(ps, pk).len() ==> !blank(#[trigger] kept_parts(ps, pk)[i])
                && !starts_with(entry_key(kept_parts(ps, pk)[i]), pk),
        forall|i: int|
            0 <= i < ps.len() && !blank(#[trigger] ps[i]) && !starts_with(entry_key(ps[i]), pk)
                ==> kept_parts(ps, pk).contains(ps[i]),
    decreases ps.len(),
{
    if ps.len() > 0 {
        let d = ps.drop_last();
        lemma_pruned_entries(d, pk);
        let acc = kept_parts(d, pk);
        let k = kept_parts(ps, pk);
        assert forall|i: int|
            0 <= i < ps.len() && !blank(#[trigger] ps[i]) && !starts_with(entry_key(ps[i]), pk)
                implies k.contains(ps[i]) by {
            if i < d.len() {
                assert(d[i] == ps[i]);
                let w = choose|j: int| 0 <= j < acc.len() && acc[j] == d[i];
                assert(k[w] == acc[w]);
            } else {
                assert(k[acc.len() as int] == ps[i]);
            }
        }
        assert forall|i: int| 0 <= i < k.len() implies !blank(#[trigger] k[i]) && !starts_with(
            entry_key(k[i]),
            pk,
        ) by {
            if i < acc.len() {
                assert(k[i] == acc[i]);
            }
        }
    }
}

/// Every non-blank entry asked for is in the PATH after an update (as an
/// added entry or one that was there), the added entries come first, and no
/// two added entries compare equal.
pub proof fn lemma_new_entries(add: Seq<Seq<char>>, kept: Seq<Seq<char>>)
    ensures
        forall|i: int|
            0 <= i < add.len() && !blank(#[trigger] add[i]) ==> key_in(
                new_entries(add, kept) + kept,
                entry_key(add[i]),
            ),
        forall|i: int, j: int|
            0 <= i < j < new_entries(add, kept).len() ==> entry_key(
                #[trigger] new_entries(add, kept)[i],
            ) != entry_key(#[trigger] new_entries(add, kept)[j]),
    decreases add.len(),
{
    if add.len() > 0 {
        let d = add.drop_last();
        lemma_new_entries(d, kept);
        let acc = new_entries(d, kept);
        let n = new_entries(add, kept);
        let p = add.last();
        assert forall|i: int| 0 <= i < add.len() && !blank(#[trigger] add[i]) implies key_in(
            n + kept,
            entry_key(add[i]),
        ) by {
            let key = entry_key(add[i]);
            if i < d.len() {
                assert(d[i] == add[i]);
                let w = choose|j: int| 0 <= j < (acc + kept).len() && entry_key((acc + kept)[j]) == key;
                if w < acc.len() {
                    assert((n + kept)[w] == acc[w]);
                } else {
                    assert((n + kept)[n.len() + (w - acc.len())] == kept[w - acc.len()]);
                }
            } else {
                if key_in(kept, key) {
                    let w = choose|j: int| 0 <= j < kept.len() && entry_key(kept[j]) == key;
                    assert((n + kept)[n.len() + w] == kept[w]);
                } else if key_in(acc, key) {
                    let w = choose|j: int| 0 <= j < acc.len() && entry_key(acc[j]) == key;
                    assert((n + kept)[w] == acc[w]);
                } else {
                    assert((n + kept)[acc.len() as int] == p);
                }
            }
        }
        assert forall|i: int, j: int| 0 <= i < j < n.len() implies entry_key(#[trigger] n[i])
            != entry_key(#[trigger] n[j]) by {
            if j < acc.len() {
                assert(n[i] == acc[i] && n[j] == acc[j]);
            } else {
                assert(n[i] == acc[i]);
                assert(n[j] == p);
            }
        }
    }
}

} // verus!
