//! cargo mirror in `~/.cargo/config.toml`:
//!
//! ```toml
//! [source.crates-io]
//! replace-with = "rsproxy"
//!
//! [source.rsproxy]
//! registry = "sparse+https://rsproxy.cn/index/"
//! ```
//!
//! Only `replace-with` of `[source.crates-io]` and the target
//! `[source.<name>]` section are changed; everything else is kept.

use vstd::prelude::*;

use crate::registry::RegistryPreset;
use crate::text::{
    append, append_str, chars_of, chars_of_string, ends_with, eq, is_ws, join, join_v, lead_len,
    lemma_lead_len, lemma_lines_join, lemma_lines_nl_free, lemma_trail_len, lemma_trim_strip_cr,
    lines, lines_v, nl_free, split_nl, lemma_split_nl_len, starts_with, starts_with_v, strip_both, strip_both_v, strip_cr,
    strip_lead, strip_lead_v, slice_of, to_string, trail_len, trim, trim_v, views, ws_pred,
    char_pred,
};

verus! {

// ---------------------------------------------------------------------------
// Reading
// ---------------------------------------------------------------------------

/// The value after a key: `= "value"` with spaces and quotes removed.
pub open spec fn cargo_value(rest: Seq<char>) -> Seq<char> {
    trim(strip_both(trim(strip_lead(trim(rest), '=')), '"'))
}

/// Scans lines for `key` inside the section whose header line starts with
/// `marker` (the section ends at the next line starting with `[`). With
/// `need_value`, an empty value does not count and scanning goes on.
pub open spec fn scan_key(
    ls: Seq<Seq<char>>,
    marker: Seq<char>,
    key: Seq<char>,
    need_value: bool,
    inside: bool,
) -> Option<Seq<char>>
    decreases ls.len(),
{
    if ls.len() == 0 {
        None
    } else {
        let t = trim(ls[0]);
        if starts_with(t, marker) {
            scan_key(ls.drop_first(), marker, key, need_value, true)
        } else {
            let ins = inside && !starts_with(t, seq!['[']);
            if ins && starts_with(t, key) && (!need_value || cargo_value(t.skip(key.len() as int)).len()
                > 0) {
                Some(cargo_value(t.skip(key.len() as int)))
            } else {
                scan_key(ls.drop_first(), marker, key, need_value, ins)
            }
        }
    }
}

fn cargo_value_v(rest: &Vec<char>) -> (r: Vec<char>)
    ensures
        r@ == cargo_value(rest@),
{
    let a = trim_v(rest);
    let b = strip_lead_v(&a, '=');
    let c = trim_v(&b);
    let d = strip_both_v(&c, '"');
    trim_v(&d)
}

fn scan_key_v(content: &Vec<char>, marker: &Vec<char>, key: &Vec<char>, need_value: bool) -> (r:
    Option<Vec<char>>)
    ensures
        match r {
            Some(v) => scan_key(lines(content@), marker@, key@, need_value, false) == Some(v@),
            None => scan_key(lines(content@), marker@, key@, need_value, false) is None,
        },
{
    let ls = lines_v(content);
    let ghost all = views(ls@);
    let open = vec!['['];
    assert(open@ =~= seq!['[']);
    let mut inside = false;
    let mut i: usize = 0;
    assert(all.skip(0) =~= all);
    while i < ls.len()
        invariant
            i <= ls.len(),
            all == views(ls@),
            all == lines(content@),
            open@ == seq!['['],
            scan_key(all, marker@, key@, need_value, false) == scan_key(
                all.skip(i as int),
                marker@,
                key@,
                need_value,
                inside,
            ),
        decreases ls.len() - i,
    {
        let ghost rest = all.skip(i as int);
        assert(rest[0] == ls@[i as int]@);
        assert(rest.drop_first() =~= all.skip(i + 1));
        let t = trim_v(&ls[i]);
        if starts_with_v(&t, marker) {
            inside = true;
        } else {
            let ins = inside && !starts_with_v(&t, &open);
            if ins && starts_with_v(&t, key) {
                let tail = slice_of(&t, key.len(), t.len());
                assert(tail@ =~= t@.skip(key@.len() as int));
                let v = cargo_value_v(&tail);
                if !need_value || v.len() > 0 {
                    return Some(v);
                }
            }
            inside = ins;
        }
        i = i + 1;
    }
    None
}

/// `replace-with` of `[source.crates-io]` (non-empty).
pub fn parse_replace_with(content: &str) -> (r: Option<String>)
    ensures
        match r {
            Some(v) => scan_key(lines(content@), "[source.crates-io]"@, "replace-with"@, true, false)
                == Some(v@),
            None => scan_key(lines(content@), "[source.crates-io]"@, "replace-with"@, true, false) is None,
        },
{
    let c = chars_of(content);
    match scan_key_v(&c, &chars_of("[source.crates-io]"), &chars_of("replace-with"), true) {
        Some(v) => Some(to_string(&v)),
        None => None,
    }
}

/// The header of the section of source `source`.
pub open spec fn source_marker(source: Seq<char>) -> Seq<char> {
    "[source."@ + source + "]"@
}

fn source_marker_v(source: &Vec<char>) -> (r: Vec<char>)
    ensures
        r@ == source_marker(source@),
{
    let mut m: Vec<char> = Vec::new();
    append_str(&mut m, "[source.");
    append(&mut m, source);
    append_str(&mut m, "]");
    m
}

/// `registry` of `[source.<source>]`.
pub fn parse_source_registry(content: &str, source: &str) -> (r: Option<String>)
    ensures
        match r {
            Some(v) => scan_key(lines(content@), source_marker(source@), "registry"@, false, false)
                == Some(v@),
            None => scan_key(lines(content@), source_marker(source@), "registry"@, false, false) is None,
        },
{
    let c = chars_of(content);
    let s = chars_of(source);
    let m = source_marker_v(&s);
    match scan_key_v(&c, &m, &chars_of("registry"), false) {
        Some(v) => Some(to_string(&v)),
        None => None,
    }
}

// ---------------------------------------------------------------------------
// Merging
// ---------------------------------------------------------------------------

pub open spec fn rw_line(mirror: Seq<char>) -> Seq<char> {
    "replace-with = \""@ + mirror + "\""@
}

pub open spec fn reg_line(url: Seq<char>) -> Seq<char> {
    "registry = \""@ + url + "\""@
}

pub open spec fn crates_io_header() -> Seq<char> {
    "[source.crates-io]"@
}

/// One line of the first pass, which sets `replace-with` in
/// `[source.crates-io]`: state `(in section, replaced)`, output lines.
pub open spec fn pass1_step(st: (bool, bool), l: Seq<char>, rw: Seq<char>) -> ((bool, bool), Seq<
    Seq<char>,
>) {
    let t = trim(l);
    if st.0 && !starts_with(t, seq!['[']) {
        if starts_with(t, "replace-with"@) {
            ((true, true), seq![rw])
        } else {
            ((true, st.1), seq![l])
        }
    } else {
        let closing: Seq<Seq<char>> = if st.0 && !st.1 {
            seq![rw]
        } else {
            Seq::empty()
        };
        if t == crates_io_header() {
            ((true, st.1), closing.push(l))
        } else {
            ((false, st.1), closing.push(l))
        }
    }
}

pub open spec fn pass1(ls: Seq<Seq<char>>, rw: Seq<char>) -> ((bool, bool), Seq<Seq<char>>)
    decreases ls.len(),
{
    if ls.len() == 0 {
        ((false, false), Seq::empty())
    } else {
        let prev = pass1(ls.drop_last(), rw);
        let next = pass1_step(prev.0, ls.last(), rw);
        (next.0, prev.1 + next.1)
    }
}

/// The first pass: a section that ends without `replace-with` gets one.
pub open spec fn pass1_out(ls: Seq<Seq<char>>, rw: Seq<char>) -> Seq<Seq<char>> {
    let r = pass1(ls, rw);
    if r.0.0 && !r.0.1 {
        r.1.push(rw)
    } else {
        r.1
    }
}

/// Some line so far is a `registry` line.
pub open spec fn any_registry(acc: Seq<Seq<char>>) -> bool {
    exists|i: int| 0 <= i < acc.len() && starts_with(trim(acc[i]), "registry"@)
}

/// One line of the second pass, which sets `registry` in `[source.<mirror>]`:
/// state `(in section, section seen)`, and the whole output so far.
pub open spec fn pass2_step(
    st: (bool, bool),
    acc: Seq<Seq<char>>,
    l: Seq<char>,
    marker: Seq<char>,
    reg: Seq<char>,
) -> ((bool, bool), Seq<Seq<char>>) {
    let t = trim(l);
    if st.0 && !starts_with(t, seq!['[']) {
        if starts_with(t, "registry"@) {
            ((true, st.1), acc.push(reg))
        } else {
            ((true, st.1), acc.push(l))
        }
    } else {
        let acc1 = if st.0 && !any_registry(acc) {
            acc.push(reg)
        } else {
            acc
        };
        if t == marker {
            ((true, true), acc1.push(l))
        } else {
            ((false, st.1), acc1.push(l))
        }
    }
}

pub open spec fn pass2(ls: Seq<Seq<char>>, marker: Seq<char>, reg: Seq<char>) -> ((bool, bool), Seq<
    Seq<char>,
>)
    decreases ls.len(),
{
    if ls.len() == 0 {
        ((false, false), Seq::empty())
    } else {
        let prev = pass2(ls.drop_last(), marker, reg);
        pass2_step(prev.0, prev.1, ls.last(), marker, reg)
    }
}

pub open spec fn has_header(acc: Seq<Seq<char>>, h: Seq<char>) -> bool {
    exists|i: int| 0 <= i < acc.len() && trim(acc[i]) == h
}

/// The lines of the merged configuration.
pub open spec fn merged_lines(content: Seq<char>, mirror: Seq<char>, sparse: Seq<char>) -> Seq<
    Seq<char>,
> {
    let rw = rw_line(mirror);
    let marker = source_marker(mirror);
    let reg = reg_line(sparse);
    let out = pass1_out(lines(content), rw);
    let r = pass2(out, marker, reg);
    let a = if r.0.0 && !any_registry(r.1) {
        r.1.push(reg)
    } else {
        r.1
    };
    let b = if !r.0.1 {
        a + seq![Seq::<char>::empty(), marker, reg]
    } else {
        a
    };
    if !has_header(b, crates_io_header()) {
        b + seq![Seq::<char>::empty(), crates_io_header(), rw]
    } else {
        b
    }
}

/// The merged configuration text: the lines joined, ending with a newline.
pub open spec fn merged_cargo_config(content: Seq<char>, mirror: Seq<char>, sparse: Seq<char>) -> Seq<
    char,
> {
    let text = join(merged_lines(content, mirror, sparse), seq!['\n']);
    if ends_with(text, seq!['\n']) {
        text
    } else {
        text.push('\n')
    }
}

fn pass1_step_v(st: (bool, bool), l: &Vec<char>, rw: &Vec<char>, out: &mut Vec<Vec<char>>) -> (r: (
    bool,
    bool,
))
    ensures
        r == pass1_step(st, l@, rw@).0,
        views(final(out)@) == views(old(out)@) + pass1_step(st, l@, rw@).1,
{
    let ghost o = views(out@);
    let t = trim_v(l);
    let open = vec!['['];
    assert(open@ =~= seq!['[']);
    if st.0 && !starts_with_v(&t, &open) {
        if starts_with_v(&t, &chars_of("replace-with")) {
            out.push(slice_of(rw, 0, rw.len()));
            assert(rw@.subrange(0, rw@.len() as int) =~= rw@);
            assert(views(out@) =~= o + seq![rw@]);
            (true, true)
        } else {
            out.push(slice_of(l, 0, l.len()));
            assert(l@.subrange(0, l@.len() as int) =~= l@);
            assert(views(out@) =~= o + seq![l@]);
            (true, st.1)
        }
    } else {
        let ghost closing: Seq<Seq<char>> = if st.0 && !st.1 {
            seq![rw@]
        } else {
            Seq::empty()
        };
        if st.0 && !st.1 {
            out.push(slice_of(rw, 0, rw.len()));
            assert(rw@.subrange(0, rw@.len() as int) =~= rw@);
        }
        assert(views(out@) =~= o + closing);
        out.push(slice_of(l, 0, l.len()));
        assert(l@.subrange(0, l@.len() as int) =~= l@);
        assert(views(out@) =~= o + closing.push(l@));
        let h = chars_of("[source.crates-io]");
        if eq(&t, &h) {
            (true, st.1)
        } else {
            (false, st.1)
        }
    }
}

fn is_registry_line(l: &Vec<char>) -> (r: bool)
    ensures
        r == starts_with(trim(l@), "registry"@),
{
    let t = trim_v(l);
    starts_with_v(&t, &chars_of("registry"))
}

proof fn lemma_any_registry_push(acc: Seq<Seq<char>>, l: Seq<char>)
    ensures
        any_registry(acc.push(l)) == (any_registry(acc) || starts_with(trim(l), "registry"@)),
{
    let a = acc.push(l);
    if any_registry(acc) {
        let i = choose|i: int| 0 <= i < acc.len() && starts_with(trim(acc[i]), "registry"@);
        assert(a[i] == acc[i]);
    }
    if any_registry(a) && !starts_with(trim(l), "registry"@) {
        let i = choose|i: int| 0 <= i < a.len() && starts_with(trim(a[i]), "registry"@);
        assert(i < acc.len());
        assert(a[i] == acc[i]);
    }
    if starts_with(trim(l), "registry"@) {
        assert(a[acc.len() as int] == l);
    }
}

fn push_line(out: &mut Vec<Vec<char>>, l: &Vec<char>, has_reg: bool) -> (r: bool)
    requires
        has_reg == any_registry(views(old(out)@)),
    ensures
        views(final(out)@) == views(old(out)@).push(l@),
        r == any_registry(views(final(out)@)),
{
    let ghost o = views(out@);
    let r = has_reg || is_registry_line(l);
    out.push(slice_of(l, 0, l.len()));
    assert(l@.subrange(0, l@.len() as int) =~= l@);
    assert(views(out@) =~= o.push(l@));
    proof {
        lemma_any_registry_push(o, l@);
    }
    r
}

/// Merges a crates.io replacement by `mirror` (whose registry is
/// `sparse_url`) into a cargo configuration. `index_url` is not written:
/// cargo always goes through the sparse index.
pub fn merge_cargo_config(content: &str, mirror: &str, index_url: &str, sparse_url: &str) -> (r:
    String)
    ensures
        r@ == merged_cargo_config(content@, mirror@, sparse_url@),
{
    let c = chars_of(content);
    let m = chars_of(mirror);
    let sp = chars_of(sparse_url);
    let mut rw: Vec<char> = Vec::new();
    append_str(&mut rw, "replace-with = \"");
    append(&mut rw, &m);
    append_str(&mut rw, "\"");
    let mut reg: Vec<char> = Vec::new();
    append_str(&mut reg, "registry = \"");
    append(&mut reg, &sp);
    append_str(&mut reg, "\"");
    let marker = source_marker_v(&m);
    let header = chars_of("[source.crates-io]");
    // first pass
    let ls = lines_v(&c);
    let ghost all = views(ls@);
    let mut out: Vec<Vec<char>> = Vec::new();
    let mut st = (false, false);
    let mut i: usize = 0;
    assert(all.take(0) =~= Seq::<Seq<char>>::empty());
    while i < ls.len()
        invariant
            i <= ls.len(),
            all == views(ls@),
            (st, views(out@)) == pass1(all.take(i as int), rw@),
        decreases ls.len() - i,
    {
        assert(all.take(i + 1).drop_last() =~= all.take(i as int));
        assert(all.take(i + 1).last() == ls@[i as int]@);
        st = pass1_step_v(st, &ls[i], &rw, &mut out);
        i = i + 1;
    }
    assert(all.take(ls.len() as int) =~= all);
    if st.0 && !st.1 {
        out.push(slice_of(&rw, 0, rw.len()));
        assert(rw@.subrange(0, rw@.len() as int) =~= rw@);
    }
    assert(views(out@) =~= pass1_out(lines(c@), rw@));
    // second pass
    let ghost o1 = views(out@);
    let mut result: Vec<Vec<char>> = Vec::new();
    let mut has_reg = false;
    let mut st2 = (false, false);
    let mut j: usize = 0;
    assert(o1.take(0) =~= Seq::<Seq<char>>::empty());
    assert(!any_registry(Seq::<Seq<char>>::empty()));
    while j < out.len()
        invariant
            j <= out.len(),
            o1 == views(out@),
            (st2, views(result@)) == pass2(o1.take(j as int), marker@, reg@),
            has_reg == any_registry(views(result@)),
        decreases out.len() - j,
    {
        assert(o1.take(j + 1).drop_last() =~= o1.take(j as int));
        assert(o1.take(j + 1).last() == out@[j as int]@);
        let l = &out[j];
        let t = trim_v(l);
        let open = vec!['['];
        assert(open@ =~= seq!['[']);
        if st2.0 && !starts_with_v(&t, &open) {
            if starts_with_v(&t, &chars_of("registry")) {
                has_reg = push_line(&mut result, &reg, has_reg);
            } else {
                has_reg = push_line(&mut result, l, has_reg);
            }
        } else {
            if st2.0 && !has_reg {
                has_reg = push_line(&mut result, &reg, has_reg);
            }
            has_reg = push_line(&mut result, l, has_reg);
            if eq(&t, &marker) {
                st2 = (true, true);
            } else {
                st2 = (false, st2.1);
            }
        }
        j = j + 1;
    }
    assert(o1.take(out.len() as int) =~= o1);
    if st2.0 && !has_reg {
        has_reg = push_line(&mut result, &reg, has_reg);
    }
    if !st2.1 {
        let ghost before = views(result@);
        result.push(Vec::new());
        result.push(slice_of(&marker, 0, marker.len()));
        result.push(slice_of(&reg, 0, reg.len()));
        assert(marker@.subrange(0, marker@.len() as int) =~= marker@);
        assert(reg@.subrange(0, reg@.len() as int) =~= reg@);
        assert(views(result@) =~= before + seq![Seq::<char>::empty(), marker@, reg@]);
    }
    // look for the crates-io header
    let mut found = false;
    let mut k: usize = 0;
    while k < result.len()
        invariant
            k <= result.len(),
            header@ == crates_io_header(),
            found == exists|x: int| 0 <= x < k && trim(views(result@)[x]) == crates_io_header(),
        decreases result.len() - k,
    {
        let t = trim_v(&result[k]);
        if eq(&t, &header) {
            found = true;
        }
        proof {
            assert(views(result@)[k as int] == result@[k as int]@);
        }
        k = k + 1;
    }
    if !found {
        let ghost before = views(result@);
        result.push(Vec::new());
        result.push(slice_of(&header, 0, header.len()));
        result.push(slice_of(&rw, 0, rw.len()));
        assert(header@.subrange(0, header@.len() as int) =~= header@);
        assert(rw@.subrange(0, rw@.len() as int) =~= rw@);
        assert(views(result@) =~= before + seq![Seq::<char>::empty(), header@, rw@]);
    }
    assert(views(result@) == merged_lines(content@, mirror@, sparse_url@));
    let nl = vec!['\n'];
    assert(nl@ =~= seq!['\n']);
    let mut text = join_v(&result, &nl);
    if !crate::text::ends_with_v(&text, &nl) {
        text.push('\n');
    }
    let _ = index_url;
    to_string(&text)
}

// ---------------------------------------------------------------------------
// The cargo writer
// ---------------------------------------------------------------------------

/// The registry that `sparse` names among a preset's extra settings, else its URL.
pub open spec fn sparse_of(extra: Seq<(String, String)>, url: Seq<char>) -> Seq<char> {
    if exists|i: int| 0 <= i < extra.len() && extra[i].0@ == "sparse"@ {
        extra[choose|i: int|
            0 <= i < extra.len() && extra[i].0@ == "sparse"@ && forall|j: int|
                0 <= j < i ==> extra[j].0@ != "sparse"@].1@
    } else {
        url
    }
}

pub struct CargoWriter;

impl CargoWriter {
    pub fn tool_name(&self) -> (r: &'static str)
        ensures
            r@ == "cargo"@,
    {
        "cargo"
    }

    /// The registry URL that a configuration uses: the `registry` of the
    /// source that `[source.crates-io]` is replaced with.
    pub fn current_url(&self, content: &str) -> (r: Option<String>)
        ensures
            match scan_key(lines(content@), "[source.crates-io]"@, "replace-with"@, true, false) {
                Some(name) => match r {
                    Some(u) => scan_key(lines(content@), source_marker(name), "registry"@, false, false)
                        == Some(u@),
                    None => scan_key(lines(content@), source_marker(name), "registry"@, false, false) is None,
                },
                None => r is None,
            },
    {
        match parse_replace_with(content) {
            Some(name) => parse_source_registry(content, name.as_str()),
            None => None,
        }
    }

    /// The configuration with `preset` merged in.
    pub fn merged_config(&self, content: &str, preset: &RegistryPreset) -> (r: String)
        ensures
            r@ == merged_cargo_config(content@, preset.name@, sparse_of(preset.extra@, preset.url@)),
    {
        let key = chars_of("sparse");
        let mut i: usize = 0;
        while i < preset.extra.len()
            invariant
                i <= preset.extra.len(),
                key@ == "sparse"@,
                forall|j: int| 0 <= j < i ==> preset.extra@[j].0@ != "sparse"@,
            decreases preset.extra.len() - i,
        {
            let k = chars_of_string(&preset.extra[i].0);
            if eq(&k, &key) {
                proof {
                    let c = choose|x: int|
                        0 <= x < preset.extra@.len() && preset.extra@[x].0@ == "sparse"@ && forall|j: int|
                            0 <= j < x ==> preset.extra@[j].0@ != "sparse"@;
                    assert(0 <= c < preset.extra@.len() && preset.extra@[c].0@ == "sparse"@ && forall|j: int|
                            0 <= j < c ==> preset.extra@[j].0@ != "sparse"@) by {
                        assert(0 <= i < preset.extra@.len() && preset.extra@[i as int].0@ == "sparse"@
                            && forall|j: int| 0 <= j < i ==> preset.extra@[j].0@ != "sparse"@);
                    }
                    if c < i {
                        assert(preset.extra@[c].0@ != "sparse"@);
                    }
                    if i < c {
                        assert(preset.extra@[i as int].0@ != "sparse"@);
                    }
                }
                return merge_cargo_config(
                    content,
                    preset.name.as_str(),
                    preset.url.as_str(),
                    preset.extra[i].1.as_str(),
                );
            }
            i = i + 1;
        }
        merge_cargo_config(content, preset.name.as_str(), preset.url.as_str(), preset.url.as_str())
    }
}

// ---------------------------------------------------------------------------
// Reading back what was merged
// ---------------------------------------------------------------------------

/// The value that reading takes from `key = "v"`.
pub open spec fn written_value(v: Seq<char>) -> Seq<char> {
    cargo_value(" = \""@ + v + "\""@)
}

/// Every line that starts (after trimming) with `header` is `header` itself.
pub open spec fn exact_headers(ls: Seq<Seq<char>>, header: Seq<char>) -> bool {
    forall|i: int|
        0 <= i < ls.len() && starts_with(trim(#[trigger] ls[i]), header) ==> trim(ls[i]) == header
}

pub open spec fn is_registry(l: Seq<char>) -> bool {
    starts_with(trim(l), "registry"@)
}

/// Walking the lines up to the first section headed by `marker`:
/// (0 before it, 1 inside it, 2 after it; a `registry` line came before it;
/// a `registry` line is inside it).
pub open spec fn first_section_step(f: (int, bool, bool), l: Seq<char>, marker: Seq<char>) -> (
    int,
    bool,
    bool,
) {
    let t = trim(l);
    if f.0 == 0 {
        if t == marker {
            (1, f.1, f.2)
        } else {
            (0, f.1 || is_registry(l), f.2)
        }
    } else if f.0 == 1 {
        if starts_with(t, seq!['[']) {
            (2, f.1, f.2)
        } else {
            (1, f.1, f.2 || is_registry(l))
        }
    } else {
        f
    }
}

pub open spec fn first_section_from(f: (int, bool, bool), ls: Seq<Seq<char>>, marker: Seq<char>) -> (
    int,
    bool,
    bool,
)
    decreases ls.len(),
{
    if ls.len() == 0 {
        f
    } else {
        first_section_step(first_section_from(f, ls.drop_last(), marker), ls.last(), marker)
    }
}

/// Merging adds a `registry` line to the first `[source.<name>]` section
/// only when no `registry` line came before that section; so reading finds
/// one there unless an earlier `registry` line exists and the section sets
/// none itself.
pub open spec fn registry_read_ok(ls: Seq<Seq<char>>, marker: Seq<char>) -> bool {
    let f = first_section_from((0, false, false), ls, marker);
    f.0 == 0 || !f.1 || f.2
}

/// Reading as a walk over the lines: (inside the section, what was found).
spec fn scan_step(
    st: (bool, Option<Seq<char>>),
    l: Seq<char>,
    marker: Seq<char>,
    key: Seq<char>,
    need_value: bool,
) -> (bool, Option<Seq<char>>) {
    if st.1 is Some {
        st
    } else {
        let t = trim(l);
        if starts_with(t, marker) {
            (true, None)
        } else {
            let ins = st.0 && !starts_with(t, seq!['[']);
            if ins && starts_with(t, key) && (!need_value || cargo_value(t.skip(key.len() as int)).len()
                > 0) {
                (ins, Some(cargo_value(t.skip(key.len() as int))))
            } else {
                (ins, None)
            }
        }
    }
}

spec fn scan_from(
    st: (bool, Option<Seq<char>>),
    ls: Seq<Seq<char>>,
    marker: Seq<char>,
    key: Seq<char>,
    need_value: bool,
) -> (bool, Option<Seq<char>>)
    decreases ls.len(),
{
    if ls.len() == 0 {
        st
    } else {
        scan_step(scan_from(st, ls.drop_last(), marker, key, need_value), ls.last(), marker, key, need_value)
    }
}

/// A line that neither opens a section nor holds the key leaves reading as it was.
spec fn neutral(l: Seq<char>, marker: Seq<char>, key: Seq<char>) -> bool {
    !starts_with(trim(l), marker) && !starts_with(trim(l), seq!['[']) && !starts_with(trim(l), key)
}

proof fn lemma_trim_id(s: Seq<char>)
    requires
        s.len() > 0,
        !is_ws(s[0]),
        !is_ws(s.last()),
    ensures
        trim(s) == s,
{
    lemma_lead_len(s, ws_pred(), 0);
    assert(s.skip(0) =~= s);
    lemma_trail_len(s, ws_pred(), 0);
    assert(s.take(s.len() as int) =~= s);
}

proof fn lemma_trim_empty()
    ensures
        trim(Seq::<char>::empty()) == Seq::<char>::empty(),
{
    let e = Seq::<char>::empty();
    assert(lead_len(e, ws_pred()) == 0);
    assert(e.skip(0) =~= e);
    assert(trail_len(e, ws_pred()) == 0);
    assert(e.take(0) =~= e);
}

/// `t` does not start with `p` when they differ at some index of `p`.
proof fn lemma_differs(t: Seq<char>, p: Seq<char>, i: int)
    requires
        0 <= i < p.len(),
        i < t.len(),
        t[i] != p[i],
    ensures
        !starts_with(t, p),
{
    if starts_with(t, p) {
        assert(t.take(p.len() as int)[i] == t[i]);
    }
}

proof fn lemma_prefix(t: Seq<char>, p: Seq<char>, rest: Seq<char>)
    requires
        t == p + rest,
    ensures
        starts_with(t, p),
        t.skip(p.len() as int) == rest,
{
    assert(t.take(p.len() as int) =~= p);
    assert(t.skip(p.len() as int) =~= rest);
}

/// What the written lines look like to reading.
proof fn lemma_written_lines(m: Seq<char>, s: Seq<char>)
    ensures
        trim(rw_line(m)) == rw_line(m),
        trim(reg_line(s)) == reg_line(s),
        starts_with(rw_line(m), "replace-with"@),
        rw_line(m).skip("replace-with"@.len() as int) == " = \""@ + m + "\""@,
        starts_with(reg_line(s), "registry"@),
        reg_line(s).skip("registry"@.len() as int) == " = \""@ + s + "\""@,
        !starts_with(rw_line(m), seq!['[']),
        !starts_with(rw_line(m), "registry"@),
        !starts_with(reg_line(s), seq!['[']),
        !starts_with(reg_line(s), "replace-with"@),
        rw_line(m)[0] == 'r',
        reg_line(s)[0] == 'r',
        crates_io_header()[0] == '[',
        source_marker(m)[0] == '[',
        trim(crates_io_header()) == crates_io_header(),
        trim(source_marker(m)) == source_marker(m),
        starts_with(crates_io_header(), seq!['[']),
        starts_with(source_marker(m), seq!['[']),
        "registry"@.len() > 0,
        "replace-with"@.len() > 0,
        m != "crates-io"@ ==> source_marker(m) != crates_io_header(),
        nl_free(m) ==> nl_free(rw_line(m)) && nl_free(source_marker(m)),
        nl_free(s) ==> nl_free(reg_line(s)),
        nl_free(crates_io_header()),
{
    reveal_strlit("replace-with = \"");
    reveal_strlit("replace-with");
    reveal_strlit(" = \"");
    reveal_strlit("\"");
    reveal_strlit("registry = \"");
    reveal_strlit("registry");
    reveal_strlit("[source.crates-io]");
    reveal_strlit("[source.");
    reveal_strlit("]");
    reveal_strlit("crates-io");
    let rw = rw_line(m);
    let reg = reg_line(s);
    let h = crates_io_header();
    let mk = source_marker(m);
    assert(rw =~= "replace-with"@ + (" = \""@ + m + "\""@));
    lemma_prefix(rw, "replace-with"@, " = \""@ + m + "\""@);
    assert(reg =~= "registry"@ + (" = \""@ + s + "\""@));
    lemma_prefix(reg, "registry"@, " = \""@ + s + "\""@);
    assert(rw[0] == 'r');
    assert(rw.last() == '"');
    assert(reg[0] == 'r');
    assert(reg.last() == '"');
    assert(!is_ws('r'));
    assert(!is_ws('"'));
    assert(!is_ws('['));
    assert(!is_ws(']'));
    lemma_trim_id(rw);
    lemma_trim_id(reg);
    assert(h[0] == '[');
    assert(h.last() == ']');
    lemma_trim_id(h);
    assert(mk[0] == '[');
    assert(mk.last() == ']');
    lemma_trim_id(mk);
    lemma_differs(rw, seq!['['], 0);
    lemma_differs(rw, "registry"@, 2);
    lemma_differs(reg, seq!['['], 0);
    lemma_differs(reg, "replace-with"@, 2);
    assert(h.take(1) =~= seq!['[']);
    assert(mk.take(1) =~= seq!['[']);
    if m != "crates-io"@ && mk == h {
        assert(m.len() == 9);
        assert forall|i: int| 0 <= i < 9 implies m[i] == "crates-io"@[i] by {
            assert(mk[8 + i] == m[i]);
            assert(h[8 + i] == "crates-io"@[i]);
        }
        assert(m =~= "crates-io"@);
    }
    if nl_free(m) {
        assert forall|i: int| 0 <= i < rw.len() implies rw[i] != '\n' by {
            if 16 <= i < 16 + m.len() {
                assert(rw[i] == m[i - 16]);
            }
        }
        assert forall|i: int| 0 <= i < mk.len() implies mk[i] != '\n' by {
            if 8 <= i < 8 + m.len() {
                assert(mk[i] == m[i - 8]);
            }
        }
    }
    if nl_free(s) {
        assert forall|i: int| 0 <= i < reg.len() implies reg[i] != '\n' by {
            if 12 <= i < 12 + s.len() {
                assert(reg[i] == s[i - 12]);
            }
        }
    }
}

proof fn lemma_empty_neutral(marker: Seq<char>, key: Seq<char>)
    requires
        marker.len() > 0,
        key.len() > 0,
    ensures
        neutral(Seq::<char>::empty(), marker, key),
{
    lemma_trim_empty();
}

proof fn lemma_neutral_step(st: (bool, Option<Seq<char>>), l: Seq<char>, marker: Seq<char>, key: Seq<char>, nv: bool)
    requires
        neutral(l, marker, key),
    ensures
        scan_step(st, l, marker, key, nv) == st,
{
}

proof fn lemma_scan_one(st: (bool, Option<Seq<char>>), l: Seq<char>, marker: Seq<char>, key: Seq<char>, nv: bool)
    ensures
        scan_from(st, seq![l], marker, key, nv) == scan_step(st, l, marker, key, nv),
{
    assert(seq![l].drop_last() =~= Seq::<Seq<char>>::empty());
    assert(scan_from(st, Seq::<Seq<char>>::empty(), marker, key, nv) == st);
    assert(seq![l].last() == l);
}

proof fn lemma_scan_app(
    st: (bool, Option<Seq<char>>),
    x: Seq<Seq<char>>,
    y: Seq<Seq<char>>,
    marker: Seq<char>,
    key: Seq<char>,
    nv: bool,
)
    ensures
        scan_from(st, x + y, marker, key, nv) == scan_from(scan_from(st, x, marker, key, nv), y, marker, key, nv),
    decreases y.len(),
{
    if y.len() == 0 {
        assert(x + y =~= x);
    } else {
        lemma_scan_app(st, x, y.drop_last(), marker, key, nv);
        assert((x + y).drop_last() =~= x + y.drop_last());
        assert((x + y).last() == y.last());
    }
}

proof fn lemma_scan_frozen(st: (bool, Option<Seq<char>>), ls: Seq<Seq<char>>, marker: Seq<char>, key: Seq<char>, nv: bool)
    requires
        st.1 is Some,
    ensures
        scan_from(st, ls, marker, key, nv) == st,
    decreases ls.len(),
{
    if ls.len() > 0 {
        lemma_scan_frozen(st, ls.drop_last(), marker, key, nv);
    }
}

proof fn lemma_scan_key(ls: Seq<Seq<char>>, marker: Seq<char>, key: Seq<char>, nv: bool, ins: bool)
    ensures
        scan_key(ls, marker, key, nv, ins) == scan_from((ins, None), ls, marker, key, nv).1,
    decreases ls.len(),
{
    if ls.len() > 0 {
        let a = ls[0];
        let rest = ls.drop_first();
        assert(ls =~= seq![a] + rest);
        lemma_scan_app((ins, None), seq![a], rest, marker, key, nv);
        lemma_scan_one((ins, None), a, marker, key, nv);
        let st1 = scan_step((ins, None), a, marker, key, nv);
        if st1.1 is Some {
            lemma_scan_frozen(st1, rest, marker, key, nv);
        } else {
            lemma_scan_key(rest, marker, key, nv, st1.0);
        }
    }
}

/// Reading does not see the `\r` that `lines` drops.
proof fn lemma_scan_cr(st: (bool, Option<Seq<char>>), x: Seq<Seq<char>>, marker: Seq<char>, key: Seq<char>, nv: bool)
    ensures
        scan_from(st, x.map_values(|t: Seq<char>| strip_cr(t)), marker, key, nv) == scan_from(st, x, marker, key, nv),
    decreases x.len(),
{
    if x.len() > 0 {
        let xm = x.map_values(|t: Seq<char>| strip_cr(t));
        lemma_scan_cr(st, x.drop_last(), marker, key, nv);
        assert(xm.drop_last() =~= x.drop_last().map_values(|t: Seq<char>| strip_cr(t)));
        lemma_trim_strip_cr(x.last());
        assert(xm.last() == strip_cr(x.last()));
    }
}

/// Joined newline-free lines end with a newline only when the last line is empty.
proof fn lemma_join_nl_end(x: Seq<Seq<char>>)
    requires
        x.len() > 0,
        forall|i: int| 0 <= i < x.len() ==> nl_free(#[trigger] x[i]),
        ends_with(join(x, seq!['\n']), seq!['\n']),
    ensures
        x.len() >= 2,
        x.last().len() == 0,
        join(x, seq!['\n']) == join(x.drop_last(), seq!['\n']).push('\n'),
{
    let j = join(x, seq!['\n']);
    assert(j.skip(j.len() - 1)[0] == j[j.len() - 1]);
    if x.len() == 1 {
        assert(nl_free(x[0]));
        assert(j == x[0]);
    } else {
        let l = x.last();
        assert(nl_free(x[x.len() - 1]));
        if l.len() > 0 {
            assert(j[j.len() - 1] == l[l.len() - 1]);
        }
        assert(j =~= join(x.drop_last(), seq!['\n']).push('\n'));
    }
}

/// Reading the written text is reading its lines.
proof fn lemma_read_text(x: Seq<Seq<char>>, marker: Seq<char>, key: Seq<char>, nv: bool)
    requires
        x.len() > 0,
        forall|i: int| 0 <= i < x.len() ==> nl_free(#[trigger] x[i]),
        marker.len() > 0,
        key.len() > 0,
    ensures
        ({
            let text = join(x, seq!['\n']);
            let full = if ends_with(text, seq!['\n']) {
                text
            } else {
                text.push('\n')
            };
            scan_key(lines(full), marker, key, nv, false) == scan_from((false, None), x, marker, key, nv).1
        }),
{
    let text = join(x, seq!['\n']);
    let e = Seq::<Seq<char>>::empty();
    if ends_with(text, seq!['\n']) {
        lemma_join_nl_end(x);
        let d = x.drop_last();
        assert(d + e =~= d);
        lemma_lines_join(d, e);
        lemma_scan_key(lines(text), marker, key, nv, false);
        lemma_scan_cr((false, None), d, marker, key, nv);
        lemma_empty_neutral(marker, key);
        assert(x.last() =~= Seq::<char>::empty());
        lemma_neutral_step(scan_from((false, None), d, marker, key, nv), x.last(), marker, key, nv);
    } else {
        assert(x + e =~= x);
        lemma_lines_join(x, e);
        lemma_scan_key(lines(text.push('\n')), marker, key, nv, false);
        lemma_scan_cr((false, None), x, marker, key, nv);
    }
}


/// Every line of `x` is a line of `src`.
spec fn drawn_from(x: Seq<Seq<char>>, src: Seq<Seq<char>>) -> bool {
    forall|i: int| 0 <= i < x.len() ==> src.contains(#[trigger] x[i])
}

proof fn lemma_drawn_trans(x: Seq<Seq<char>>, y: Seq<Seq<char>>, z: Seq<Seq<char>>)
    requires
        drawn_from(x, y),
        drawn_from(y, z),
    ensures
        drawn_from(x, z),
{
    assert forall|i: int| 0 <= i < x.len() implies z.contains(#[trigger] x[i]) by {
        assert(y.contains(x[i]));
        let j = choose|j: int| 0 <= j < y.len() && y[j] == x[i];
        assert(z.contains(y[j]));
    }
}

proof fn lemma_starts_bracket(t: Seq<char>, p: Seq<char>)
    requires
        p.len() > 0,
        p[0] == '[',
        starts_with(t, p),
    ensures
        starts_with(t, seq!['[']),
{
    assert(t.take(p.len() as int)[0] == t[0]);
    assert(t.take(1) =~= seq!['[']);
}

/// A `registry` line is no header and no `replace-with` line.
proof fn lemma_registry_line(l: Seq<char>)
    requires
        is_registry(l),
    ensures
        !starts_with(trim(l), seq!['[']),
        !starts_with(trim(l), "replace-with"@),
        trim(l)[0] == 'r',
{
    reveal_strlit("registry");
    reveal_strlit("replace-with");
    let t = trim(l);
    assert(t.take(8)[0] == t[0]);
    assert(t.take(8)[2] == t[2]);
    lemma_differs(t, seq!['['], 0);
    lemma_differs(t, "replace-with"@, 2);
}

/// A `replace-with` line is no header and no `registry` line.
proof fn lemma_rw_key_line(l: Seq<char>)
    requires
        starts_with(trim(l), "replace-with"@),
    ensures
        !starts_with(trim(l), seq!['[']),
        !is_registry(l),
        trim(l)[0] == 'r',
{
    reveal_strlit("registry");
    reveal_strlit("replace-with");
    let t = trim(l);
    assert(t.take(12)[0] == t[0]);
    assert(t.take(12)[2] == t[2]);
    lemma_differs(t, seq!['['], 0);
    lemma_differs(t, "registry"@, 2);
}

/// A line whose trimmed form starts with `r` opens no section.
proof fn lemma_not_header(l: Seq<char>, h: Seq<char>)
    requires
        trim(l).len() > 0,
        trim(l)[0] == 'r',
        h.len() > 0,
        h[0] == '[',
    ensures
        !starts_with(trim(l), h),
        trim(l) != h,
        !starts_with(trim(l), seq!['[']),
{
    lemma_differs(trim(l), h, 0);
    lemma_differs(trim(l), seq!['['], 0);
}

// The first pass, seen by reading `replace-with`.

proof fn lemma_pass1_reads(ls: Seq<Seq<char>>, m: Seq<char>)
    requires
        exact_headers(ls, crates_io_header()),
        m.len() > 0,
        written_value(m) == m,
    ensures
        ({
            let r = pass1(ls, rw_line(m));
            let sc = scan_from((false, None), r.1, crates_io_header(), "replace-with"@, true);
            let has = has_header(ls, crates_io_header());
            ||| (!r.0.0 && !r.0.1 && sc == (false, None::<Seq<char>>) && !has)
            ||| (r.0.0 && !r.0.1 && sc == (true, None::<Seq<char>>) && has)
            ||| (sc.1 == Some(m) && has)
        }),
    decreases ls.len(),
{
    let h = crates_io_header();
    let key = "replace-with"@;
    let rw = rw_line(m);
    let s0 = (false, None::<Seq<char>>);
    if ls.len() == 0 {
        assert(!has_header(ls, h));
    } else {
        let d = ls.drop_last();
        let l = ls.last();
        assert forall|i: int| 0 <= i < d.len() && starts_with(trim(#[trigger] d[i]), h) implies trim(d[i]) == h by {
            assert(d[i] == ls[i]);
        }
        lemma_pass1_reads(d, m);
        lemma_written_lines(m, Seq::<char>::empty());
        lemma_not_header(rw, h);
        assert(trim(rw).skip(key.len() as int) == " = \""@ + m + "\""@);
        let prev = pass1(d, rw);
        let next = pass1_step(prev.0, l, rw);
        let sp = scan_from(s0, prev.1, h, key, true);
        let t = trim(l);
        assert(pass1(ls, rw).1 == prev.1 + next.1);
        assert(pass1(ls, rw).0 == next.0);
        lemma_scan_app(s0, prev.1, next.1, h, key, true);
        if has_header(d, h) {
            let i = choose|i: int| 0 <= i < d.len() && trim(d[i]) == h;
            assert(ls[i] == d[i]);
        }
        if t == h {
            assert(ls[ls.len() - 1] == l);
        }
        if has_header(ls, h) && t != h {
            let i = choose|i: int| 0 <= i < ls.len() && trim(ls[i]) == h;
            assert(i < ls.len() - 1);
            assert(d[i] == ls[i]);
        }
        assert(ls[ls.len() - 1] == l);
        // the written line found inside the section
        assert(scan_step((true, None), rw, h, key, true) == (true, Some(m)));
        if sp.1 is Some {
            lemma_scan_frozen(sp, next.1, h, key, true);
        } else if !prev.0.0 {
            // before any crates.io section
            assert(Seq::<Seq<char>>::empty().push(l) =~= seq![l]);
            lemma_scan_one(sp, l, h, key, true);
            if t == h {
                lemma_prefix(t, h, Seq::<char>::empty());
                assert(t =~= h + Seq::<char>::empty());
            }
        } else {
            // inside the first crates.io section, nothing replaced yet
            if !starts_with(t, seq!['[']) {
                if starts_with(t, key) {
                    lemma_scan_one(sp, rw, h, key, true);
                } else {
                    lemma_scan_one(sp, l, h, key, true);
                    if starts_with(t, h) {
                        lemma_starts_bracket(t, h);
                    }
                }
            } else {
                assert(next.1 =~= seq![rw] + seq![l]);
                lemma_scan_app(sp, seq![rw], seq![l], h, key, true);
                lemma_scan_one(sp, rw, h, key, true);
                lemma_scan_frozen((true, Some(m)), seq![l], h, key, true);
            }
        }
    }
}

proof fn lemma_pass1_out_reads(ls: Seq<Seq<char>>, m: Seq<char>)
    requires
        exact_headers(ls, crates_io_header()),
        m.len() > 0,
        written_value(m) == m,
    ensures
        has_header(ls, crates_io_header()) ==> scan_from(
            (false, None),
            pass1_out(ls, rw_line(m)),
            crates_io_header(),
            "replace-with"@,
            true,
        ).1 == Some(m),
        !has_header(ls, crates_io_header()) ==> scan_from(
            (false, None),
            pass1_out(ls, rw_line(m)),
            crates_io_header(),
            "replace-with"@,
            true,
        ) == (false, None::<Seq<char>>),
{
    let h = crates_io_header();
    let key = "replace-with"@;
    let rw = rw_line(m);
    let s0 = (false, None::<Seq<char>>);
    lemma_pass1_reads(ls, m);
    lemma_written_lines(m, Seq::<char>::empty());
    lemma_not_header(rw, h);
    assert(trim(rw).skip(key.len() as int) == " = \""@ + m + "\""@);
    let r = pass1(ls, rw);
    let sc = scan_from(s0, r.1, h, key, true);
    if r.0.0 && !r.0.1 {
        assert(r.1.push(rw) =~= r.1 + seq![rw]);
        lemma_scan_app(s0, r.1, seq![rw], h, key, true);
        lemma_scan_one(sc, rw, h, key, true);
        if sc.1 is Some {
            lemma_scan_frozen(sc, seq![rw], h, key, true);
        }
    }
}

proof fn lemma_pass1_drawn(ls: Seq<Seq<char>>, rw: Seq<char>)
    ensures
        drawn_from(pass1(ls, rw).1, ls.push(rw)),
        drawn_from(pass1_out(ls, rw), ls.push(rw)),
    decreases ls.len(),
{
    let src = ls.push(rw);
    let out = pass1(ls, rw).1;
    assert(src[ls.len() as int] == rw);
    if ls.len() > 0 {
        let d = ls.drop_last();
        lemma_pass1_drawn(d, rw);
        let prev = pass1(d, rw);
        let next = pass1_step(prev.0, ls.last(), rw);
        assert(out == prev.1 + next.1);
        assert(src[ls.len() - 1] == ls.last());
        assert forall|i: int| 0 <= i < out.len() implies src.contains(#[trigger] out[i]) by {
            if i < prev.1.len() {
                assert(out[i] == prev.1[i]);
                assert(d.push(rw).contains(prev.1[i]));
                let j = choose|j: int| 0 <= j < d.push(rw).len() && d.push(rw)[j] == prev.1[i];
                if j < d.len() {
                    assert(src[j] == d[j]);
                } else {
                    assert(src[ls.len() as int] == rw);
                }
            } else {
                assert(out[i] == next.1[i - prev.1.len()]);
            }
        }
    }
    let r = pass1(ls, rw);
    if r.0.0 && !r.0.1 {
        assert forall|i: int| 0 <= i < r.1.push(rw).len() implies src.contains(#[trigger] r.1.push(rw)[i]) by {
            if i < r.1.len() {
                assert(r.1.push(rw)[i] == r.1[i]);
            }
        }
    }
}

proof fn lemma_fs_one(f: (int, bool, bool), l: Seq<char>, marker: Seq<char>)
    ensures
        first_section_from(f, seq![l], marker) == first_section_step(f, l, marker),
{
    assert(seq![l].drop_last() =~= Seq::<Seq<char>>::empty());
    assert(first_section_from(f, Seq::<Seq<char>>::empty(), marker) == f);
    assert(seq![l].last() == l);
}

proof fn lemma_fs_app(f: (int, bool, bool), x: Seq<Seq<char>>, y: Seq<Seq<char>>, marker: Seq<char>)
    ensures
        first_section_from(f, x + y, marker) == first_section_from(first_section_from(f, x, marker), y, marker),
    decreases y.len(),
{
    if y.len() == 0 {
        assert(x + y =~= x);
    } else {
        lemma_fs_app(f, x, y.drop_last(), marker);
        assert((x + y).drop_last() =~= x + y.drop_last());
        assert((x + y).last() == y.last());
    }
}

/// The first pass writes and replaces only `replace-with` lines, which the
/// walk to the first `[source.<name>]` section passes over.
proof fn lemma_pass1_first_section(ls: Seq<Seq<char>>, m: Seq<char>, marker: Seq<char>, f: (int, bool, bool))
    requires
        marker.len() > 0,
        marker[0] == '[',
    ensures
        first_section_from(f, pass1(ls, rw_line(m)).1, marker) == first_section_from(f, ls, marker),
        first_section_from(f, pass1_out(ls, rw_line(m)), marker) == first_section_from(f, ls, marker),
    decreases ls.len(),
{
    let rw = rw_line(m);
    lemma_written_lines(m, Seq::<char>::empty());
    lemma_not_header(rw, marker);
    lemma_rw_key_line(rw);
    assert(first_section_step(f, rw, marker) == f);
    if ls.len() > 0 {
        let d = ls.drop_last();
        let l = ls.last();
        lemma_pass1_first_section(d, m, marker, f);
        let prev = pass1(d, rw);
        let next = pass1_step(prev.0, l, rw);
        let g = first_section_from(f, prev.1, marker);
        assert(pass1(ls, rw).1 == prev.1 + next.1);
        lemma_fs_app(f, prev.1, next.1, marker);
        let t = trim(l);
        if prev.0.0 && !starts_with(t, seq!['[']) && starts_with(t, "replace-with"@) {
            lemma_rw_key_line(l);
            assert(t != marker) by {
                if t == marker {
                    assert(t[0] == marker[0]);
                }
            }
            lemma_fs_one(g, rw, marker);
            assert(first_section_step(g, rw, marker) == g);
            assert(first_section_step(g, l, marker) == g);
        } else if prev.0.0 && !starts_with(t, seq!['[']) {
            lemma_fs_one(g, l, marker);
        } else if prev.0.0 && !prev.0.1 {
            assert(next.1 =~= seq![rw] + seq![l]);
            lemma_fs_app(g, seq![rw], seq![l], marker);
            lemma_fs_one(g, rw, marker);
            lemma_fs_one(g, l, marker);
        } else {
            assert(next.1 =~= seq![l]);
            lemma_fs_one(g, l, marker);
        }
    }
    let r = pass1(ls, rw);
    if r.0.0 && !r.0.1 {
        assert(r.1.push(rw) =~= r.1 + seq![rw]);
        lemma_fs_app(f, r.1, seq![rw], marker);
        lemma_fs_one(first_section_from(f, r.1, marker), rw, marker);
        assert(first_section_step(first_section_from(f, r.1, marker), rw, marker) == first_section_from(f, r.1, marker));
    }
}


// The second pass.

/// The second pass writes and replaces only `registry` lines, which reading
/// `replace-with` passes over.
proof fn lemma_pass2_keeps_rw_read(xs: Seq<Seq<char>>, marker: Seq<char>, s: Seq<char>, st: (bool, Option<Seq<char>>))
    ensures
        scan_from(st, pass2(xs, marker, reg_line(s)).1, crates_io_header(), "replace-with"@, true)
            == scan_from(st, xs, crates_io_header(), "replace-with"@, true),
    decreases xs.len(),
{
    let h = crates_io_header();
    let key = "replace-with"@;
    let reg = reg_line(s);
    lemma_written_lines(Seq::<char>::empty(), s);
    lemma_not_header(reg, h);
    assert(neutral(reg, h, key));
    if xs.len() > 0 {
        let d = xs.drop_last();
        let l = xs.last();
        lemma_pass2_keeps_rw_read(d, marker, s, st);
        let prev = pass2(d, marker, reg);
        let x = scan_from(st, prev.1, h, key, true);
        let t = trim(l);
        let out = pass2(xs, marker, reg).1;
        if prev.0.0 && !starts_with(t, seq!['[']) {
            if starts_with(t, "registry"@) {
                lemma_registry_line(l);
                lemma_not_header(l, h);
                assert(out == prev.1 + seq![reg]);
                lemma_scan_app(st, prev.1, seq![reg], h, key, true);
                lemma_scan_one(x, reg, h, key, true);
                lemma_neutral_step(x, reg, h, key, true);
                lemma_neutral_step(x, l, h, key, true);
            } else {
                assert(out == prev.1 + seq![l]);
                lemma_scan_app(st, prev.1, seq![l], h, key, true);
                lemma_scan_one(x, l, h, key, true);
            }
        } else if prev.0.0 && !any_registry(prev.1) {
            assert(out =~= prev.1 + seq![reg, l]);
            assert(seq![reg, l] =~= seq![reg] + seq![l]);
            lemma_scan_app(st, prev.1, seq![reg, l], h, key, true);
            lemma_scan_app(x, seq![reg], seq![l], h, key, true);
            lemma_scan_one(x, reg, h, key, true);
            lemma_neutral_step(x, reg, h, key, true);
            lemma_scan_one(x, l, h, key, true);
        } else {
            assert(out == prev.1 + seq![l]);
            lemma_scan_app(st, prev.1, seq![l], h, key, true);
            lemma_scan_one(x, l, h, key, true);
        }
    }
}

proof fn lemma_pass2_drawn(xs: Seq<Seq<char>>, marker: Seq<char>, reg: Seq<char>)
    ensures
        drawn_from(pass2(xs, marker, reg).1, xs.push(reg)),
    decreases xs.len(),
{
    let src = xs.push(reg);
    let out = pass2(xs, marker, reg).1;
    assert(src[xs.len() as int] == reg);
    if xs.len() > 0 {
        let d = xs.drop_last();
        let l = xs.last();
        lemma_pass2_drawn(d, marker, reg);
        let prev = pass2(d, marker, reg);
        assert(src[xs.len() - 1] == l);
        assert forall|i: int| 0 <= i < out.len() implies src.contains(#[trigger] out[i]) by {
            if i < prev.1.len() {
                assert(out[i] == prev.1[i]);
                assert(d.push(reg).contains(prev.1[i]));
                let j = choose|j: int| 0 <= j < d.push(reg).len() && d.push(reg)[j] == prev.1[i];
                if j < d.len() {
                    assert(src[j] == d[j]);
                } else {
                    assert(src[xs.len() as int] == reg);
                }
            } else if i == out.len() - 1 {
                assert(out[i] == l || out[i] == reg);
            } else {
                assert(out[i] == reg);
            }
        }
    }
}

/// The second pass seen by reading `registry` in `[source.<name>]`: before
/// the first such section nothing is found; inside it, until a `registry`
/// line, nothing is found and the `registry` lines so far are those before
/// it; once that section has one, its value is found; or a `registry` line
/// came before a first section that sets none.
proof fn lemma_pass2_reads(xs: Seq<Seq<char>>, m: Seq<char>, s: Seq<char>)
    requires
        exact_headers(xs, source_marker(m)),
    ensures
        ({
            let marker = source_marker(m);
            let r = pass2(xs, marker, reg_line(s));
            let sc = scan_from((false, None), r.1, marker, "registry"@, false);
            let f = first_section_from((0, false, false), xs, marker);
            ||| (f.0 == 0 && !f.2 && !r.0.0 && !r.0.1 && sc == (false, None::<Seq<char>>) && any_registry(r.1) == f.1)
            ||| (f.0 == 1 && !f.2 && r.0.0 && r.0.1 && sc == (true, None::<Seq<char>>) && any_registry(r.1) == f.1)
            ||| (f.0 >= 1 && r.0.1 && sc.1 == Some(written_value(s)))
            ||| (f.0 == 2 && f.1 && !f.2)
        }),
    decreases xs.len(),
{
    let marker = source_marker(m);
    let key = "registry"@;
    let reg = reg_line(s);
    let s0 = (false, None::<Seq<char>>);
    let f0 = (0int, false, false);
    lemma_written_lines(m, s);
    lemma_not_header(reg, marker);
    assert(trim(reg).skip(key.len() as int) == " = \""@ + s + "\""@);
    assert(scan_step((true, None), reg, marker, key, false) == (true, Some(written_value(s))));
    if xs.len() == 0 {
        assert(!any_registry(Seq::<Seq<char>>::empty()));
    } else {
        let d = xs.drop_last();
        let l = xs.last();
        assert forall|i: int| 0 <= i < d.len() && starts_with(trim(#[trigger] d[i]), marker) implies trim(d[i])
            == marker by {
            assert(d[i] == xs[i]);
        }
        assert(xs[xs.len() - 1] == l);
        lemma_pass2_reads(d, m, s);
        let prev = pass2(d, marker, reg);
        let sp = scan_from(s0, prev.1, marker, key, false);
        let fp = first_section_from(f0, d, marker);
        let t = trim(l);
        let r = pass2(xs, marker, reg);
        assert(first_section_from(f0, xs, marker) == first_section_step(fp, l, marker));
        if sp.1 is Some {
            // found already
            if prev.0.0 && !starts_with(t, seq!['[']) {
                assert(r.1 =~= prev.1 + seq![r.1.last()]);
                lemma_scan_app(s0, prev.1, seq![r.1.last()], marker, key, false);
                lemma_scan_frozen(sp, seq![r.1.last()], marker, key, false);
            } else {
                let e = r.1.skip(prev.1.len() as int);
                assert(r.1 =~= prev.1 + e);
                lemma_scan_app(s0, prev.1, e, marker, key, false);
                lemma_scan_frozen(sp, e, marker, key, false);
            }
        } else if fp.0 == 2 && fp.1 && !fp.2 {
        } else if !prev.0.0 && !prev.0.1 {
            // before the first section
            assert(r.1 == prev.1.push(l));
            assert(prev.1.push(l) =~= prev.1 + seq![l]);
            lemma_scan_app(s0, prev.1, seq![l], marker, key, false);
            lemma_scan_one(sp, l, marker, key, false);
            lemma_any_registry_push(prev.1, l);
            if t == marker {
                lemma_prefix(t, marker, Seq::<char>::empty());
                assert(t =~= marker + Seq::<char>::empty());
                assert(!is_registry(l)) by {
                    reveal_strlit("registry");
                    lemma_differs(t, key, 0);
                }
            }
        } else {
            // inside the first section, no registry line yet
            assert(prev.0.0 && fp.0 == 1);
            if !starts_with(t, seq!['[']) {
                if starts_with(t, key) {
                    assert(r.1 == prev.1.push(reg));
                    assert(prev.1.push(reg) =~= prev.1 + seq![reg]);
                    lemma_scan_app(s0, prev.1, seq![reg], marker, key, false);
                    lemma_scan_one(sp, reg, marker, key, false);
                } else {
                    assert(r.1 == prev.1.push(l));
                    assert(prev.1.push(l) =~= prev.1 + seq![l]);
                    lemma_scan_app(s0, prev.1, seq![l], marker, key, false);
                    lemma_scan_one(sp, l, marker, key, false);
                    lemma_any_registry_push(prev.1, l);
                    if starts_with(t, marker) {
                        lemma_starts_bracket(t, marker);
                    }
                }
            } else if !any_registry(prev.1) {
                assert(r.1 =~= prev.1 + seq![reg, l]);
                assert(seq![reg, l] =~= seq![reg] + seq![l]);
                lemma_scan_app(s0, prev.1, seq![reg, l], marker, key, false);
                lemma_scan_app(sp, seq![reg], seq![l], marker, key, false);
                lemma_scan_one(sp, reg, marker, key, false);
                lemma_scan_frozen((true, Some(written_value(s))), seq![l], marker, key, false);
            }
        }
    }
}

/// cargo: after mirror `m`, whose registry is `s`, is merged into a
/// configuration, reading gives `m` back as the replacement of crates.io
/// and `s`, as a quoted value reads, as that mirror's registry.
///
/// Reading takes the first `replace-with` of a section whose header starts
/// with `[source.crates-io]` and the first `registry` of one whose header
/// starts with `[source.<m>]`; merging works on the sections whose header is
/// exactly that, sets `replace-with` in the first crates.io section only,
/// and adds `registry` to the first mirror section only when no `registry`
/// line came before it. So this holds when `m` and `s` hold no newline, `m`
/// is not `crates-io` and reads back as written (not empty, no surrounding
/// quotes or blanks), the headers of the two sections are exact, and the
/// first mirror section sets `registry` itself if a `registry` line comes
/// before it.
pub proof fn lemma_cargo_reads_back(content: Seq<char>, m: Seq<char>, s: Seq<char>)
    requires
        nl_free(m),
        nl_free(s),
        m.len() > 0,
        written_value(m) == m,
        m != "crates-io"@,
        exact_headers(lines(content), crates_io_header()),
        exact_headers(lines(content), source_marker(m)),
        registry_read_ok(lines(content), source_marker(m)),
    ensures
        scan_key(lines(merged_cargo_config(content, m, s)), crates_io_header(), "replace-with"@, true, false)
            == Some(m),
        scan_key(lines(merged_cargo_config(content, m, s)), source_marker(m), "registry"@, false, false)
            == Some(written_value(s)),
{
    let ls = lines(content);
    let h = crates_io_header();
    let marker = source_marker(m);
    let rw = rw_line(m);
    let reg = reg_line(s);
    let rk = "replace-with"@;
    let gk = "registry"@;
    let s0 = (false, None::<Seq<char>>);
    let e = Seq::<char>::empty();
    lemma_written_lines(m, s);
    lemma_not_header(rw, h);
    lemma_not_header(reg, h);
    lemma_not_header(rw, marker);
    lemma_not_header(reg, marker);
    lemma_trim_empty();
    lemma_empty_neutral(h, rk);
    lemma_empty_neutral(marker, gk);
    assert(trim(rw).skip(rk.len() as int) == " = \""@ + m + "\""@);
    assert(trim(reg).skip(gk.len() as int) == " = \""@ + s + "\""@);
    lemma_prefix(h, h, e);
    assert(h =~= h + e);
    lemma_prefix(marker, marker, e);
    assert(marker =~= marker + e);

    // the first pass
    let xs = pass1_out(ls, rw);
    lemma_pass1_out_reads(ls, m);
    lemma_pass1_drawn(ls, rw);
    lemma_pass1_first_section(ls, m, marker, (0, false, false));
    assert forall|i: int| 0 <= i < xs.len() && starts_with(trim(#[trigger] xs[i]), marker) implies trim(xs[i])
        == marker by {
        assert(ls.push(rw).contains(xs[i]));
        let j = choose|j: int| 0 <= j < ls.push(rw).len() && ls.push(rw)[j] == xs[i];
        if j < ls.len() {
            assert(ls[j] == xs[i]);
        }
    }

    // the second pass and the sections added at the end
    let r = pass2(xs, marker, reg);
    lemma_pass2_drawn(xs, marker, reg);
    lemma_pass2_keeps_rw_read(xs, marker, s, s0);
    lemma_pass2_reads(xs, m, s);
    let a = if r.0.0 && !any_registry(r.1) {
        r.1.push(reg)
    } else {
        r.1
    };
    let b = if !r.0.1 {
        a + seq![e, marker, reg]
    } else {
        a
    };
    let fin = if !has_header(b, h) {
        b + seq![e, h, rw]
    } else {
        b
    };
    assert(merged_lines(content, m, s) == fin);

    // every line is one of the content's lines or one of the written ones
    let pool = ls + seq![rw, reg, e, marker, h];
    assert(drawn_from(ls.push(rw), pool)) by {
        assert forall|i: int| 0 <= i < ls.push(rw).len() implies pool.contains(#[trigger] ls.push(rw)[i]) by {
            if i < ls.len() {
                assert(pool[i] == ls[i]);
            } else {
                assert(pool[ls.len() as int] == rw);
            }
        }
    }
    assert(drawn_from(xs.push(reg), pool)) by {
        assert forall|i: int| 0 <= i < xs.push(reg).len() implies pool.contains(#[trigger] xs.push(reg)[i]) by {
            if i < xs.len() {
                assert(xs.push(reg)[i] == xs[i]);
                assert(ls.push(rw).contains(xs[i]));
                let j = choose|j: int| 0 <= j < ls.push(rw).len() && ls.push(rw)[j] == xs[i];
                assert(pool.contains(ls.push(rw)[j]));
            } else {
                assert(pool[ls.len() + 1int] == reg);
            }
        }
    }
    lemma_drawn_trans(r.1, xs.push(reg), pool);
    assert(drawn_from(fin, pool)) by {
        assert forall|i: int| 0 <= i < fin.len() implies pool.contains(#[trigger] fin[i]) by {
            if i < r.1.len() {
                assert(fin[i] == r.1[i]);
            } else {
                assert(pool[ls.len() + 1int] == reg);
                assert(pool[ls.len() + 2int] == e);
                assert(pool[ls.len() + 3int] == marker);
                assert(pool[ls.len() + 4int] == h);
                assert(pool[ls.len() as int] == rw);
            }
        }
    }
    lemma_lines_nl_free(content);
    assert(nl_free(e));
    assert forall|i: int| 0 <= i < fin.len() implies nl_free(#[trigger] fin[i]) by {
        assert(pool.contains(fin[i]));
        let j = choose|j: int| 0 <= j < pool.len() && pool[j] == fin[i];
        if j < ls.len() {
            assert(pool[j] == ls[j]);
        }
    }

    // reading `registry` in the mirror's section
    let f = first_section_from((0, false, false), xs, marker);
    let v = written_value(s);
    let sr = scan_from(s0, r.1, marker, gk, false);
    assert(scan_step((true, None), reg, marker, gk, false) == (true, Some(v)));
    let sa = scan_from(s0, a, marker, gk, false);
    if r.0.0 && !any_registry(r.1) {
        assert(a =~= r.1 + seq![reg]);
        lemma_scan_app(s0, r.1, seq![reg], marker, gk, false);
        lemma_scan_one(sr, reg, marker, gk, false);
        if sr.1 is Some {
            lemma_scan_frozen(sr, seq![reg], marker, gk, false);
        }
    }
    let sb = scan_from(s0, b, marker, gk, false);
    if !r.0.1 {
        lemma_scan_app(s0, a, seq![e, marker, reg], marker, gk, false);
        assert(seq![e, marker, reg] =~= seq![e, marker] + seq![reg]);
        assert(seq![e, marker] =~= seq![e] + seq![marker]);
        lemma_scan_app(sa, seq![e, marker], seq![reg], marker, gk, false);
        lemma_scan_app(sa, seq![e], seq![marker], marker, gk, false);
        lemma_scan_one(sa, e, marker, gk, false);
        lemma_neutral_step(sa, e, marker, gk, false);
        lemma_scan_one(sa, marker, marker, gk, false);
        let sm = scan_step(sa, marker, marker, gk, false);
        lemma_scan_one(sm, reg, marker, gk, false);
        if sa.1 is Some {
            lemma_scan_frozen(sa, seq![e, marker, reg], marker, gk, false);
        }
    }
    assert(sb.1 == Some(v));
    if !has_header(b, h) {
        lemma_scan_app(s0, b, seq![e, h, rw], marker, gk, false);
        lemma_scan_frozen(sb, seq![e, h, rw], marker, gk, false);
    }
    assert(scan_from(s0, fin, marker, gk, false).1 == Some(v));
    assert(fin.len() > 0);

    // reading `replace-with` in the crates.io section
    let qr = scan_from(s0, r.1, h, rk, true);
    assert(neutral(reg, h, rk));
    let qa = scan_from(s0, a, h, rk, true);
    if r.0.0 && !any_registry(r.1) {
        lemma_scan_app(s0, r.1, seq![reg], h, rk, true);
        lemma_scan_one(qr, reg, h, rk, true);
        lemma_neutral_step(qr, reg, h, rk, true);
    }
    assert(qa == qr);
    let qb = scan_from(s0, b, h, rk, true);
    if !r.0.1 {
        lemma_scan_app(s0, a, seq![e, marker, reg], h, rk, true);
        assert(seq![e, marker, reg] =~= seq![e, marker] + seq![reg]);
        assert(seq![e, marker] =~= seq![e] + seq![marker]);
        lemma_scan_app(qa, seq![e, marker], seq![reg], h, rk, true);
        lemma_scan_app(qa, seq![e], seq![marker], h, rk, true);
        lemma_scan_one(qa, e, h, rk, true);
        lemma_neutral_step(qa, e, h, rk, true);
        lemma_scan_one(qa, marker, h, rk, true);
        let qm = scan_step(qa, marker, h, rk, true);
        lemma_scan_one(qm, reg, h, rk, true);
        lemma_neutral_step(qm, reg, h, rk, true);
        assert(!starts_with(marker, rk)) by {
            reveal_strlit("replace-with");
            lemma_differs(marker, rk, 0);
        }
        if qa.1 is Some {
            lemma_scan_frozen(qa, seq![e, marker, reg], h, rk, true);
        }
    }
    if has_header(ls, h) {
        assert(qb.1 == Some(m));
        if !has_header(b, h) {
            lemma_scan_app(s0, b, seq![e, h, rw], h, rk, true);
            lemma_scan_frozen(qb, seq![e, h, rw], h, rk, true);
        }
    } else {
        assert(qb.1 is None);
        // no line of `b` is the crates.io header
        assert(!has_header(b, h)) by {
            if has_header(b, h) {
                let i = choose|i: int| 0 <= i < b.len() && trim(b[i]) == h;
                let pb = ls + seq![rw, reg, e, marker];
                assert(pool.contains(b[i])) by {
                    assert(fin[i] == b[i]);
                }
                let j = choose|j: int| 0 <= j < pool.len() && pool[j] == b[i];
                if j < ls.len() {
                    assert(pool[j] == ls[j]);
                    assert(has_header(ls, h));
                } else if j == ls.len() + 4 {
                    // the crates.io header is added only after `b`
                    assert(b[i] == h);
                    assert(false) by {
                        assert(drawn_from(b, pb)) by {
                            assert forall|k: int| 0 <= k < b.len() implies pb.contains(#[trigger] b[k]) by {
                                if k < r.1.len() {
                                    assert(b[k] == r.1[k]);
                                    assert(xs.push(reg).contains(r.1[k]));
                                    let q = choose|q: int| 0 <= q < xs.push(reg).len() && xs.push(reg)[q] == r.1[k];
                                    if q < xs.len() {
                                        assert(ls.push(rw).contains(xs[q]));
                                        let w = choose|w: int| 0 <= w < ls.push(rw).len() && ls.push(rw)[w] == xs[q];
                                        if w < ls.len() {
                                            assert(pb[w] == ls[w]);
                                        } else {
                                            assert(pb[ls.len() as int] == rw);
                                        }
                                    } else {
                                        assert(pb[ls.len() + 1int] == reg);
                                    }
                                } else {
                                    assert(pb[ls.len() + 1int] == reg);
                                    assert(pb[ls.len() + 2int] == e);
                                    assert(pb[ls.len() + 3int] == marker);
                                }
                            }
                        }
                        assert(pb.contains(b[i]));
                        let z = choose|z: int| 0 <= z < pb.len() && pb[z] == b[i];
                        if z < ls.len() {
                            assert(pb[z] == ls[z]);
                            assert(has_header(ls, h));
                        }
                    }
                }
            }
        }
        assert(fin == b + seq![e, h, rw]);
        lemma_scan_app(s0, b, seq![e, h, rw], h, rk, true);
        assert(seq![e, h, rw] =~= seq![e, h] + seq![rw]);
        assert(seq![e, h] =~= seq![e] + seq![h]);
        lemma_scan_app(qb, seq![e, h], seq![rw], h, rk, true);
        lemma_scan_app(qb, seq![e], seq![h], h, rk, true);
        lemma_scan_one(qb, e, h, rk, true);
        lemma_neutral_step(qb, e, h, rk, true);
        lemma_scan_one(qb, h, h, rk, true);
        lemma_scan_one((true, None), rw, h, rk, true);
    }
    assert(scan_from(s0, fin, h, rk, true).1 == Some(m));

    // from the lines to the text and back
    lemma_read_text(fin, h, rk, true);
    lemma_read_text(fin, marker, gk, false);
}


/// A value that is not empty, has no blanks around it and holds no quote
/// reads back as written.
pub proof fn lemma_written_value_plain(v: Seq<char>)
    requires
        v.len() > 0,
        trim(v) == v,
        forall|i: int| 0 <= i < v.len() ==> v[i] != '"',
    ensures
        written_value(v) == v,
{
    reveal_strlit(" = \"");
    reveal_strlit("\"");
    let w = " = \""@ + v + "\""@;
    assert(is_ws(' ') && !is_ws('=') && !is_ws('"'));
    lemma_lead_len(w, ws_pred(), 1);
    lemma_trail_len(w, ws_pred(), 0);
    let w1 = w.skip(1);
    assert(w1 =~= seq!['=', ' ', '"'] + v + seq!['"']);
    assert(trim(w) == w1.take(w1.len() as int));
    assert(w1.take(w1.len() as int) =~= w1);
    lemma_lead_len(w1, char_pred('='), 1);
    let w2 = w1.skip(1);
    assert(w2 =~= seq![' ', '"'] + v + seq!['"']);
    assert(strip_lead(w1, '=') == w2);
    lemma_lead_len(w2, ws_pred(), 1);
    lemma_trail_len(w2, ws_pred(), 0);
    let w3 = w2.skip(1);
    assert(w3 =~= seq!['"'] + v + seq!['"']);
    assert(w3.take(w3.len() as int) =~= w3);
    assert(trim(w2) == w3);
    assert(w3[1] == v[0]);
    lemma_lead_len(w3, char_pred('"'), 1);
    let w4 = w3.skip(1);
    assert(w4 =~= v + seq!['"']);
    assert(strip_lead(w3, '"') == w4);
    assert(w4[w4.len() - 2] == v[v.len() - 1]);
    lemma_trail_len(w4, char_pred('"'), 1);
    assert(w4.take(w4.len() - 1) =~= v);
    assert(strip_both(w3, '"') == v);
}

/// A text starting with a header starting with `[source.` starts with `[source.`.
proof fn lemma_source_prefix(t: Seq<char>, name: Seq<char>)
    requires
        starts_with(t, source_marker(name)),
    ensures
        starts_with(t, "[source."@),
{
    reveal_strlit("[source.");
    reveal_strlit("]");
    let mk = source_marker(name);
    assert(t.take(8) =~= mk.take(8)) by {
        assert forall|i: int| 0 <= i < 8 implies t.take(8)[i] == mk.take(8)[i] by {
            assert(t.take(mk.len() as int)[i] == t[i]);
        }
    }
    assert(mk.take(8) =~= "[source."@);
}

/// Without any header that is exactly the mirror's, the walk never reaches
/// its section.
proof fn lemma_no_first_section(ls: Seq<Seq<char>>, marker: Seq<char>)
    requires
        forall|i: int| 0 <= i < ls.len() ==> trim(#[trigger] ls[i]) != marker,
    ensures
        first_section_from((0, false, false), ls, marker).0 == 0,
    decreases ls.len(),
{
    if ls.len() > 0 {
        let d = ls.drop_last();
        assert forall|i: int| 0 <= i < d.len() implies trim(#[trigger] d[i]) != marker by {
            assert(d[i] == ls[i]);
        }
        lemma_no_first_section(d, marker);
        assert(trim(ls.last()) != marker) by {
            assert(ls.last() == ls[ls.len() - 1]);
        }
    }
}

/// A source name made of letters, digits, `-` and `_`.
pub open spec fn plain_source_name(m: Seq<char>) -> bool {
    forall|i: int|
        0 <= i < m.len() ==> (('a' <= #[trigger] m[i] && m[i] <= 'z') || ('A' <= m[i] && m[i] <= 'Z') || ('0'
            <= m[i] && m[i] <= '9') || m[i] == '-' || m[i] == '_')
}

/// cargo, for a configuration without `[source.…]` sections yet: merging a
/// plainly named mirror `m` (not `crates-io`) with a registry `s` (not
/// empty, no blanks around it, no quote, no newline) reads back as `m`
/// replacing crates.io and `s` as its registry.
pub proof fn lemma_cargo_reads_back_plain(content: Seq<char>, m: Seq<char>, s: Seq<char>)
    requires
        forall|i: int| 0 <= i < lines(content).len() ==> !starts_with(trim(#[trigger] lines(content)[i]), "[source."@),
        m.len() > 0,
        m != "crates-io"@,
        plain_source_name(m),
        s.len() > 0,
        trim(s) == s,
        forall|i: int| 0 <= i < s.len() ==> s[i] != '"' && s[i] != '\n',
    ensures
        scan_key(lines(merged_cargo_config(content, m, s)), crates_io_header(), "replace-with"@, true, false)
            == Some(m),
        scan_key(lines(merged_cargo_config(content, m, s)), source_marker(m), "registry"@, false, false)
            == Some(s),
{
    let ls = lines(content);
    let h = crates_io_header();
    let mk = source_marker(m);
    reveal_strlit("[source.crates-io]");
    reveal_strlit("crates-io");
    assert(h == source_marker("crates-io"@)) by {
        reveal_strlit("[source.");
        reveal_strlit("]");
        assert(h =~= source_marker("crates-io"@));
    }
    assert(nl_free(m));
    assert(!is_ws(m[0]) && !is_ws(m[m.len() - 1]));
    lemma_trim_id(m);
    lemma_written_value_plain(m);
    lemma_written_value_plain(s);
    assert forall|i: int| 0 <= i < ls.len() && starts_with(trim(#[trigger] ls[i]), h) implies trim(ls[i]) == h by {
        lemma_source_prefix(trim(ls[i]), "crates-io"@);
    }
    assert forall|i: int| 0 <= i < ls.len() && starts_with(trim(#[trigger] ls[i]), mk) implies trim(ls[i]) == mk by {
        lemma_source_prefix(trim(ls[i]), m);
    }
    assert forall|i: int| 0 <= i < ls.len() implies trim(#[trigger] ls[i]) != mk by {
        if trim(ls[i]) == mk {
            lemma_prefix(mk, mk, Seq::<char>::empty());
            assert(mk =~= mk + Seq::<char>::empty());
            lemma_source_prefix(trim(ls[i]), m);
        }
    }
    lemma_no_first_section(ls, mk);
    lemma_cargo_reads_back(content, m, s);
}


// ---------------------------------------------------------------------------
// Merging twice
// ---------------------------------------------------------------------------

/// The second pass run over its own output gives it back, in the same state.
proof fn lemma_pass2_stable(xs: Seq<Seq<char>>, marker: Seq<char>, reg: Seq<char>)
    requires
        trim(reg) == reg,
        starts_with(reg, "registry"@),
        !starts_with(reg, seq!['[']),
    ensures
        pass2(pass2(xs, marker, reg).1, marker, reg) == pass2(xs, marker, reg),
    decreases xs.len(),
{
    if xs.len() > 0 {
        let d = xs.drop_last();
        let l = xs.last();
        lemma_pass2_stable(d, marker, reg);
        let pa = pass2(d, marker, reg);
        let st = pa.0;
        let acc = pa.1;
        let t = trim(l);
        assert(acc.push(reg).drop_last() =~= acc);
        assert(acc.push(l).drop_last() =~= acc);
        if !(st.0 && !starts_with(t, seq!['['])) && st.0 && !any_registry(acc) {
            let ar = acc.push(reg);
            assert(ar.push(l).drop_last() =~= ar);
            lemma_any_registry_push(acc, reg);
            assert(pass2(ar, marker, reg) == ((true, st.1), ar));
        }
    }
}

/// Each prefix of `xs` goes through the first pass unchanged.
spec fn pass1_keeps(xs: Seq<Seq<char>>, rw: Seq<char>) -> bool {
    forall|k: int| 0 <= k <= xs.len() ==> #[trigger] pass1(xs.take(k), rw).1 == xs.take(k)
}

/// The first pass run over its own output gives it back, with the same
/// section state and a `replace-with` seen wherever the first run saw one.
proof fn lemma_pass1_stable(ls: Seq<Seq<char>>, rw: Seq<char>)
    requires
        trim(rw) == rw,
        starts_with(rw, "replace-with"@),
        !starts_with(rw, seq!['[']),
    ensures
        pass1_keeps(pass1(ls, rw).1, rw),
        pass1(pass1(ls, rw).1, rw).0.0 == pass1(ls, rw).0.0,
        pass1(ls, rw).0.1 ==> pass1(pass1(ls, rw).1, rw).0.1,
    decreases ls.len(),
{
    let a = pass1(ls, rw);
    if ls.len() == 0 {
        assert forall|k: int| 0 <= k <= a.1.len() implies #[trigger] pass1(a.1.take(k), rw).1
            == a.1.take(k) by {
            assert(a.1.take(k) =~= Seq::<Seq<char>>::empty());
        }
    } else {
        let d = ls.drop_last();
        let l = ls.last();
        lemma_pass1_stable(d, rw);
        let ap = pass1(d, rw);
        let o = ap.1;
        let bp = pass1(o, rw);
        let st = ap.0;
        let t = trim(l);
        let step = pass1_step(st, l, rw);
        assert(a.1 == o + step.1);
        assert(o.push(rw).drop_last() =~= o);
        assert(o.push(l).drop_last() =~= o);
        assert(o.push(rw).push(l).drop_last() =~= o.push(rw));
        assert(o.take(o.len() as int) =~= o);
        assert(pass1(o.take(o.len() as int), rw).1 == o.take(o.len() as int));
        assert(o + seq![rw] =~= o.push(rw));
        if !(st.0 && !starts_with(t, seq!['['])) && st.0 && !st.1 {
            assert(step.1 =~= seq![rw, l]);
            assert(a.1 =~= o.push(rw).push(l));
            assert(pass1(o.push(rw), rw) == ((true, true), o.push(rw)));
        } else if st.0 && !starts_with(t, seq!['[']) && starts_with(t, "replace-with"@) {
            assert(a.1 =~= o.push(rw));
        } else {
            assert(a.1 =~= o.push(l));
        }
        assert forall|k: int| 0 <= k <= a.1.len() implies #[trigger] pass1(a.1.take(k), rw).1
            == a.1.take(k) by {
            if k <= o.len() {
                assert(a.1.take(k) =~= o.take(k));
                assert(pass1(o.take(k), rw).1 == o.take(k));
            } else if k == a.1.len() {
                assert(a.1.take(k) =~= a.1);
                assert(o.take(o.len() as int) =~= o);
                assert(pass1(o.take(o.len() as int), rw).1 == o.take(o.len() as int));
            } else {
                assert(k == o.len() + 1);
                assert(a.1.take(k) =~= o.push(rw));
                assert(o.take(o.len() as int) =~= o);
                assert(pass1(o.take(o.len() as int), rw).1 == o.take(o.len() as int));
            }
        }
        assert(o.take(o.len() as int) =~= o);
        assert(pass1(o.take(o.len() as int), rw).1 == o.take(o.len() as int));
    }
}

/// The output of the first pass with its closing line goes through the
/// first pass unchanged, and ends outside a `[source.crates-io]` section or
/// with its `replace-with` seen.
proof fn lemma_pass1_out_stable(ls: Seq<Seq<char>>, rw: Seq<char>)
    requires
        trim(rw) == rw,
        starts_with(rw, "replace-with"@),
        !starts_with(rw, seq!['[']),
    ensures
        pass1_keeps(pass1_out(ls, rw), rw),
        pass1(pass1_out(ls, rw), rw).0.0 ==> pass1(pass1_out(ls, rw), rw).0.1,
{
    lemma_pass1_stable(ls, rw);
    let a = pass1(ls, rw);
    let o = a.1;
    let out = pass1_out(ls, rw);
    assert(o.take(o.len() as int) =~= o);
    assert(pass1(o.take(o.len() as int), rw).1 == o.take(o.len() as int));
    if a.0.0 && !a.0.1 {
        assert(o.push(rw).drop_last() =~= o);
        assert(o + seq![rw] =~= o.push(rw));
        assert(pass1(o.push(rw), rw) == ((true, true), o.push(rw)));
        assert forall|k: int| 0 <= k <= out.len() implies #[trigger] pass1(out.take(k), rw).1
            == out.take(k) by {
            if k <= o.len() {
                assert(out.take(k) =~= o.take(k));
            } else {
                assert(out.take(k) =~= o.push(rw));
            }
        }
    }
}

/// The second pass touches no `[source.crates-io]` section and writes no
/// section header: over a list the first pass keeps, its output is kept by
/// the first pass too, in the same state, and the two passes are never both
/// inside their sections.
proof fn lemma_pass2_keeps_pass1(xs: Seq<Seq<char>>, rw: Seq<char>, marker: Seq<char>, reg: Seq<char>)
    requires
        pass1_keeps(xs, rw),
        trim(reg) == reg,
        starts_with(reg, "registry"@),
        !starts_with(reg, seq!['[']),
        starts_with(crates_io_header(), seq!['[']),
        starts_with(marker, seq!['[']),
        marker != crates_io_header(),
    ensures
        pass1(pass2(xs, marker, reg).1, rw) == (pass1(xs, rw).0, pass2(xs, marker, reg).1),
        !(pass1(xs, rw).0.0 && pass2(xs, marker, reg).0.0),
    decreases xs.len(),
{
    let h = crates_io_header();
    if xs.len() > 0 {
        let d = xs.drop_last();
        let x = xs.last();
        assert forall|k: int| 0 <= k <= d.len() implies #[trigger] pass1(d.take(k), rw).1 == d.take(k) by {
            assert(d.take(k) =~= xs.take(k));
        }
        lemma_pass2_keeps_pass1(d, rw, marker, reg);
        let s1 = pass1(d, rw).0;
        let p2 = pass2(d, marker, reg);
        let st2 = p2.0;
        let ad = p2.1;
        let t = trim(x);
        // the first pass passes `x` through
        assert(xs.take(xs.len() as int) =~= xs);
        assert(d.take(d.len() as int) =~= d);
        assert(pass1(xs.take(xs.len() as int), rw).1 == xs.take(xs.len() as int));
        assert(pass1(d.take(d.len() as int), rw).1 == d.take(d.len() as int));
        let s = pass1_step(s1, x, rw);
        assert(d + s.1 == xs);
        assert(s.1.len() == 1);
        assert((d + s.1)[d.len() as int] == x);
        assert(s.1 =~= seq![x]);
        reveal_strlit("registry");
        if starts_with(t, "registry"@) && t == h {
            lemma_differs(h, "registry"@, 0);
        }
        assert(!starts_with(t, seq!['[']) ==> t != h);
        assert(!starts_with(t, seq!['[']) ==> t != marker);
        assert(reg != h);
        assert(ad.push(reg).drop_last() =~= ad);
        assert(ad.push(x).drop_last() =~= ad);
        assert(ad.push(reg).push(x).drop_last() =~= ad.push(reg));
        assert(ad + seq![reg] =~= ad.push(reg));
        assert(ad + seq![x] =~= ad.push(x));
        assert(ad.push(reg) + seq![x] =~= ad.push(reg).push(x));
        if st2.0 {
            assert(!s1.0);
            assert(pass1_step(s1, reg, rw) == (s1, seq![reg]));
            assert(pass1(ad.push(reg), rw) == (s1, ad.push(reg)));
        }
        let out = pass2(xs, marker, reg);
        if st2.0 && !starts_with(t, seq!['[']) {
            if starts_with(t, "registry"@) {
                assert(out.1 == ad.push(reg));
                assert(s.0 == s1);
            } else {
                assert(out.1 == ad.push(x));
            }
        } else if st2.0 && !any_registry(ad) {
            assert(out.1 == ad.push(reg).push(x));
            assert(pass1(ad.push(reg).push(x), rw) == (s.0, ad.push(reg).push(x)));
        } else {
            assert(out.1 == ad.push(x));
            assert(pass1(ad.push(x), rw) == (s.0, ad.push(x)));
        }
    }
}

/// The merged lines of a configuration whose lines are `ls`.
pub open spec fn merge_lines(ls: Seq<Seq<char>>, mirror: Seq<char>, sparse: Seq<char>) -> Seq<Seq<char>> {
    let rw = rw_line(mirror);
    let marker = source_marker(mirror);
    let reg = reg_line(sparse);
    let out = pass1_out(ls, rw);
    let r = pass2(out, marker, reg);
    let a = if r.0.0 && !any_registry(r.1) {
        r.1.push(reg)
    } else {
        r.1
    };
    let b = if !r.0.1 {
        a + seq![Seq::<char>::empty(), marker, reg]
    } else {
        a
    };
    if !has_header(b, crates_io_header()) {
        b + seq![Seq::<char>::empty(), crates_io_header(), rw]
    } else {
        b
    }
}

/// Appending an empty line, the mirror section header and its `registry`
/// line, after lines both passes keep.
proof fn lemma_mirror_tail(a: Seq<Seq<char>>, sa: (bool, bool), st2: (bool, bool), m: Seq<char>, s: Seq<char>)
    requires
        m != "crates-io"@,
        pass1(a, rw_line(m)) == (sa, a),
        pass2(a, source_marker(m), reg_line(s)) == (st2, a),
        sa.0 ==> sa.1,
        st2.0 ==> any_registry(a),
    ensures
        ({
            let b = a + seq![Seq::<char>::empty(), source_marker(m), reg_line(s)];
            &&& pass1(b, rw_line(m)) == ((false, sa.1), b)
            &&& pass2(b, source_marker(m), reg_line(s)) == ((true, true), b)
            &&& any_registry(b)
        }),
{
    lemma_written_lines(m, s);
    lemma_trim_empty();
    let rw = rw_line(m);
    let marker = source_marker(m);
    let reg = reg_line(s);
    let h = crates_io_header();
    let e = Seq::<char>::empty();
    assert(!starts_with(e, seq!['[']));
    assert(!starts_with(e, "registry"@));
    assert(!starts_with(e, "replace-with"@));
    assert(e != h);
    assert(e != marker);
    assert(reg != h) by {
        if reg == h {
            assert(reg[0] == h[0]);
        }
    }
    let a1 = a.push(e);
    let a2 = a1.push(marker);
    let a3 = a2.push(reg);
    assert(a1.drop_last() =~= a);
    assert(a2.drop_last() =~= a1);
    assert(a3.drop_last() =~= a2);
    assert(a + seq![e] =~= a1);
    assert(a1 + seq![marker] =~= a2);
    assert(a2 + seq![reg] =~= a3);
    assert(a + seq![e, marker, reg] =~= a3);
    lemma_any_registry_push(a, e);
    lemma_any_registry_push(a2, reg);
    assert(pass1_step(sa, e, rw) == (sa, seq![e]));
    assert(pass1(a1, rw) == (sa, a1));
    assert(pass1_step(sa, marker, rw) == ((false, sa.1), seq![marker]));
    assert(pass1(a2, rw) == ((false, sa.1), a2));
    assert(pass1_step((false, sa.1), reg, rw) == ((false, sa.1), seq![reg]));
    assert(pass1(a3, rw) == ((false, sa.1), a3));
    assert(pass2(a1, marker, reg) == (st2, a1));
    assert(pass2(a2, marker, reg) == ((true, true), a2));
    assert(pass2(a3, marker, reg) == ((true, true), a3));
}

/// Appending an empty line, the `[source.crates-io]` header and its
/// `replace-with` line, after lines both passes keep.
proof fn lemma_crates_tail(b: Seq<Seq<char>>, sb: (bool, bool), stb: (bool, bool), m: Seq<char>, s: Seq<char>)
    requires
        m != "crates-io"@,
        pass1(b, rw_line(m)) == (sb, b),
        pass2(b, source_marker(m), reg_line(s)) == (stb, b),
        sb.0 ==> sb.1,
        stb.1,
        stb.0 ==> any_registry(b),
    ensures
        ({
            let c = b + seq![Seq::<char>::empty(), crates_io_header(), rw_line(m)];
            &&& pass1(c, rw_line(m)) == ((true, true), c)
            &&& pass2(c, source_marker(m), reg_line(s)) == ((false, true), c)
            &&& has_header(c, crates_io_header())
        }),
{
    lemma_written_lines(m, s);
    lemma_trim_empty();
    let rw = rw_line(m);
    let marker = source_marker(m);
    let reg = reg_line(s);
    let h = crates_io_header();
    let e = Seq::<char>::empty();
    assert(!starts_with(e, seq!['[']));
    assert(!starts_with(e, "registry"@));
    assert(!starts_with(e, "replace-with"@));
    assert(e != h);
    assert(e != marker);
    assert(rw != marker) by {
        if rw == marker {
            assert(rw[0] == marker[0]);
        }
    }
    let b1 = b.push(e);
    let b2 = b1.push(h);
    let b3 = b2.push(rw);
    assert(b1.drop_last() =~= b);
    assert(b2.drop_last() =~= b1);
    assert(b3.drop_last() =~= b2);
    assert(b + seq![e] =~= b1);
    assert(b1 + seq![h] =~= b2);
    assert(b2 + seq![rw] =~= b3);
    assert(b + seq![e, h, rw] =~= b3);
    lemma_any_registry_push(b, e);
    assert(pass1_step(sb, e, rw) == (sb, seq![e]));
    assert(pass1(b1, rw) == (sb, b1));
    assert(pass1(b2, rw) == ((true, sb.1), b2));
    assert(pass1(b3, rw) == ((true, true), b3));
    assert(pass2(b1, marker, reg) == (stb, b1));
    assert(pass2(b2, marker, reg) == ((false, true), b2));
    assert(pass2(b3, marker, reg) == ((false, true), b3));
    assert(trim(b3[b.len() as int + 1]) == h);
}

/// Merging the merged lines again changes nothing.
proof fn lemma_merge_fixpoint(ls: Seq<Seq<char>>, m: Seq<char>, s: Seq<char>)
    requires
        m != "crates-io"@,
    ensures
        merge_lines(merge_lines(ls, m, s), m, s) == merge_lines(ls, m, s),
        has_header(merge_lines(ls, m, s), crates_io_header()),
{
    lemma_written_lines(m, s);
    let rw = rw_line(m);
    let marker = source_marker(m);
    let reg = reg_line(s);
    let h = crates_io_header();
    let e = Seq::<char>::empty();
    let o = pass1_out(ls, rw);
    lemma_pass1_out_stable(ls, rw);
    lemma_pass2_keeps_pass1(o, rw, marker, reg);
    lemma_pass2_stable(o, marker, reg);
    let r = pass2(o, marker, reg);
    let aa = r.1;
    let st2 = r.0;
    let sa = pass1(o, rw).0;
    assert(o.take(o.len() as int) =~= o);
    assert(sa.0 ==> sa.1);
    assert(reg != h) by {
        if reg == h {
            assert(reg[0] == h[0]);
        }
    }
    // the closing `registry` line
    let a = if st2.0 && !any_registry(aa) {
        aa.push(reg)
    } else {
        aa
    };
    lemma_any_registry_push(aa, reg);
    assert(aa.push(reg).drop_last() =~= aa);
    assert(aa + seq![reg] =~= aa.push(reg));
    if st2.0 {
        assert(pass1_step(sa, reg, rw) == (sa, seq![reg]));
    }
    assert(pass1(a, rw) == (sa, a));
    assert(pass2(a, marker, reg) == (st2, a));
    assert(st2.0 ==> any_registry(a));
    let b = if !st2.1 {
        a + seq![e, marker, reg]
    } else {
        a
    };
    let sb = if !st2.1 {
        (false, sa.1)
    } else {
        sa
    };
    let stb = if !st2.1 {
        (true, true)
    } else {
        st2
    };
    if !st2.1 {
        lemma_mirror_tail(a, sa, st2, m, s);
    }
    assert(pass1(b, rw) == (sb, b));
    assert(pass2(b, marker, reg) == (stb, b));
    let c = if !has_header(b, h) {
        b + seq![e, h, rw]
    } else {
        b
    };
    if !has_header(b, h) {
        lemma_crates_tail(b, sb, stb, m, s);
    }
    assert(has_header(c, h));
    assert(merge_lines(ls, m, s) == c);
    assert(pass1_out(c, rw) == c);
    let r2 = pass2(c, marker, reg);
    assert(r2.0.1);
    assert(r2.0.0 ==> any_registry(c));
    assert(r2.1 == c);
}

proof fn lemma_has_header_push_blank(x: Seq<Seq<char>>, h: Seq<char>)
    requires
        h.len() > 0,
    ensures
        has_header(x.push(Seq::<char>::empty()), h) == has_header(x, h),
{
    let e = Seq::<char>::empty();
    let xe = x.push(e);
    lemma_trim_empty();
    if has_header(x, h) {
        let i = choose|i: int| 0 <= i < x.len() && trim(x[i]) == h;
        assert(xe[i] == x[i]);
    }
    if has_header(xe, h) {
        let i = choose|i: int| 0 <= i < xe.len() && trim(xe[i]) == h;
        assert(i < x.len());
        assert(xe[i] == x[i]);
    }
}

/// When merging lines that end with an empty line leaves it last, the
/// merge is that of the lines before it, followed by the empty line.
proof fn lemma_merge_blank_end(y: Seq<Seq<char>>, m: Seq<char>, s: Seq<char>)
    requires
        m != "crates-io"@,
        merge_lines(y.push(Seq::<char>::empty()), m, s).len() > 0,
        merge_lines(y.push(Seq::<char>::empty()), m, s).last() == Seq::<char>::empty(),
    ensures
        merge_lines(y.push(Seq::<char>::empty()), m, s) == merge_lines(y, m, s).push(Seq::<char>::empty()),
{
    lemma_written_lines(m, s);
    lemma_trim_empty();
    let rw = rw_line(m);
    let marker = source_marker(m);
    let reg = reg_line(s);
    let h = crates_io_header();
    let e = Seq::<char>::empty();
    let ye = y.push(e);
    let res = merge_lines(ye, m, s);
    assert(ye.drop_last() =~= y);
    assert(!starts_with(e, seq!['[']));
    assert(!starts_with(e, "registry"@));
    assert(!starts_with(e, "replace-with"@));
    assert(e != h);
    assert(e != marker);
    assert(rw != e && reg != e);
    let p = pass1(y, rw);
    assert(pass1_step(p.0, e, rw) == (p.0, seq![e]));
    assert(p.1 + seq![e] =~= p.1.push(e));
    assert(pass1(ye, rw) == (p.0, p.1.push(e)));
    if p.0.0 && !p.0.1 {
        let o2 = p.1.push(e).push(rw);
        assert(pass1_out(ye, rw) == o2);
        assert(o2.drop_last() =~= p.1.push(e));
        let r2 = pass2(o2, marker, reg);
        assert(r2.1.last() == rw);
        assert(res.last() != e);
    }
    let o = p.1;
    assert(pass1_out(y, rw) == o);
    assert(pass1_out(ye, rw) == o.push(e));
    let r = pass2(o, marker, reg);
    assert(o.push(e).drop_last() =~= o);
    assert(pass2_step(r.0, r.1, e, marker, reg) == (r.0, r.1.push(e)));
    assert(pass2(o.push(e), marker, reg) == (r.0, r.1.push(e)));
    lemma_any_registry_push(r.1, e);
    let ae = r.1.push(e);
    if r.0.0 && !any_registry(r.1) {
        let a2 = ae.push(reg);
        assert((a2 + seq![e, marker, reg]).last() == reg);
        assert((a2 + seq![e, h, rw]).last() == rw);
        assert((a2 + seq![e, marker, reg] + seq![e, h, rw]).last() == rw);
        assert(res.last() != e);
    }
    if !r.0.1 {
        assert((ae + seq![e, marker, reg]).last() == reg);
        assert((ae + seq![e, marker, reg] + seq![e, h, rw]).last() == rw);
        assert(res.last() != e);
    }
    lemma_has_header_push_blank(r.1, h);
    if !has_header(r.1, h) {
        assert((ae + seq![e, h, rw]).last() == rw);
        assert(res.last() != e);
    }
    assert(res == ae);
    assert(merge_lines(y, m, s) == r.1);
}

/// `t` holds no `c`.
pub open spec fn free_of(t: Seq<char>, c: char) -> bool {
    forall|i: int| 0 <= i < t.len() ==> t[i] != c
}

proof fn lemma_split_nl_free_of(s: Seq<char>, c: char)
    requires
        free_of(s, c),
    ensures
        forall|i: int| 0 <= i < split_nl(s).len() ==> free_of(#[trigger] split_nl(s)[i], c),
    decreases s.len(),
{
    if s.len() > 0 {
        let d = s.drop_last();
        assert(free_of(d, c)) by {
            assert forall|i: int| 0 <= i < d.len() implies d[i] != c by {
                assert(d[i] == s[i]);
            }
        }
        lemma_split_nl_free_of(d, c);
        lemma_split_nl_len(d);
        let r = split_nl(d);
        let n = split_nl(s);
        assert(s.last() == s[s.len() - 1]);
        assert forall|i: int| 0 <= i < n.len() implies free_of(#[trigger] n[i], c) by {
            if s.last() != '\n' && i == r.len() - 1 {
                assert(n[i] == r.last().push(s.last()));
                assert(free_of(r[r.len() - 1], c));
                assert forall|k: int| 0 <= k < n[i].len() implies n[i][k] != c by {
                    if k < r.last().len() {
                        assert(n[i][k] == r[r.len() - 1][k]);
                    }
                }
            } else if i < r.len() {
                assert(n[i] == r[i]);
            } else {
                assert(n[i] =~= Seq::<char>::empty());
            }
        }
    }
}

/// The lines of a text without `c` hold no `c`.
proof fn lemma_lines_free_of(s: Seq<char>, c: char)
    requires
        free_of(s, c),
    ensures
        forall|i: int| 0 <= i < lines(s).len() ==> free_of(#[trigger] lines(s)[i], c),
{
    lemma_split_nl_free_of(s, c);
    lemma_split_nl_len(s);
    let p = split_nl(s);
    let l = lines(s);
    assert forall|i: int| 0 <= i < l.len() implies free_of(#[trigger] l[i], c) by {
        if i < p.len() - 1 {
            assert(l[i] == strip_cr(p[i]));
            assert(free_of(p[i], c));
            assert forall|k: int| 0 <= k < l[i].len() implies l[i][k] != c by {
                assert(l[i][k] == p[i][k]);
            }
        } else {
            assert(l[i] == p.last());
            assert(free_of(p[p.len() - 1], c));
        }
    }
}

/// Every merged line is a line of the configuration or a written one.
proof fn lemma_merge_pool(ls: Seq<Seq<char>>, m: Seq<char>, s: Seq<char>)
    ensures
        drawn_from(
            merge_lines(ls, m, s),
            ls + seq![rw_line(m), reg_line(s), Seq::<char>::empty(), source_marker(m), crates_io_header()],
        ),
{
    let rw = rw_line(m);
    let reg = reg_line(s);
    let e = Seq::<char>::empty();
    let marker = source_marker(m);
    let h = crates_io_header();
    let pool = ls + seq![rw, reg, e, marker, h];
    let xs = pass1_out(ls, rw);
    lemma_pass1_drawn(ls, rw);
    let r = pass2(xs, marker, reg);
    lemma_pass2_drawn(xs, marker, reg);
    assert(drawn_from(ls.push(rw), pool)) by {
        assert forall|i: int| 0 <= i < ls.push(rw).len() implies pool.contains(#[trigger] ls.push(rw)[i]) by {
            if i < ls.len() {
                assert(pool[i] == ls[i]);
            } else {
                assert(pool[ls.len() as int] == rw);
            }
        }
    }
    lemma_drawn_trans(xs, ls.push(rw), pool);
    assert(drawn_from(xs.push(reg), pool)) by {
        assert forall|i: int| 0 <= i < xs.push(reg).len() implies pool.contains(#[trigger] xs.push(reg)[i]) by {
            if i < xs.len() {
                assert(xs.push(reg)[i] == xs[i]);
            } else {
                assert(pool[ls.len() + 1int] == reg);
            }
        }
    }
    lemma_drawn_trans(r.1, xs.push(reg), pool);
    let fin = merge_lines(ls, m, s);
    assert forall|i: int| 0 <= i < fin.len() implies pool.contains(#[trigger] fin[i]) by {
        if i < r.1.len() {
            assert(fin[i] == r.1[i]);
        } else {
            assert(pool[ls.len() + 1int] == reg);
            assert(pool[ls.len() + 2int] == e);
            assert(pool[ls.len() + 3int] == marker);
            assert(pool[ls.len() + 4int] == h);
            assert(pool[ls.len() as int] == rw);
        }
    }
}

/// The written lines hold no carriage return when the mirror's name and
/// registry hold none.
proof fn lemma_written_cr_free(m: Seq<char>, s: Seq<char>)
    requires
        free_of(m, '\r'),
        free_of(s, '\r'),
    ensures
        free_of(rw_line(m), '\r'),
        free_of(reg_line(s), '\r'),
        free_of(source_marker(m), '\r'),
        free_of(crates_io_header(), '\r'),
{
    reveal_strlit("replace-with = \"");
    reveal_strlit("\"");
    reveal_strlit("registry = \"");
    reveal_strlit("[source.crates-io]");
    reveal_strlit("[source.");
    reveal_strlit("]");
    let rw = rw_line(m);
    let reg = reg_line(s);
    let mk = source_marker(m);
    assert forall|i: int| 0 <= i < rw.len() implies rw[i] != '\r' by {
        if 16 <= i < 16 + m.len() {
            assert(rw[i] == m[i - 16]);
        }
    }
    assert forall|i: int| 0 <= i < reg.len() implies reg[i] != '\r' by {
        if 12 <= i < 12 + s.len() {
            assert(reg[i] == s[i - 12]);
        }
    }
    assert forall|i: int| 0 <= i < mk.len() implies mk[i] != '\r' by {
        if 8 <= i < 8 + m.len() {
            assert(mk[i] == m[i - 8]);
        }
    }
}

/// cargo: merging the same mirror a second time changes nothing more.
/// This holds when the configuration has no carriage return, the mirror's
/// name and registry hold no line break, the mirror is not `crates-io`, and
/// the merged text does not end with an empty line (`\n\n`); such a text
/// loses one trailing empty line on each merge, since splitting it into
/// lines drops the last one.
pub proof fn lemma_cargo_merge_twice(content: Seq<char>, m: Seq<char>, s: Seq<char>)
    requires
        forall|i: int| 0 <= i < content.len() ==> content[i] != '\r',
        forall|i: int| 0 <= i < m.len() ==> m[i] != '\n' && m[i] != '\r',
        forall|i: int| 0 <= i < s.len() ==> s[i] != '\n' && s[i] != '\r',
        m != "crates-io"@,
        !ends_with(merged_cargo_config(content, m, s), seq!['\n', '\n']),
    ensures
        merged_cargo_config(merged_cargo_config(content, m, s), m, s) == merged_cargo_config(content, m, s),
{
    let ls = lines(content);
    let cl = merged_lines(content, m, s);
    let e = Seq::<char>::empty();
    let nl = seq!['\n'];
    assert(cl == merge_lines(ls, m, s));
    lemma_merge_fixpoint(ls, m, s);
    lemma_merge_pool(ls, m, s);
    lemma_lines_free_of(content, '\r');
    lemma_lines_nl_free(content);
    lemma_written_lines(m, s);
    lemma_written_cr_free(m, s);
    let pool = ls + seq![rw_line(m), reg_line(s), e, source_marker(m), crates_io_header()];
    assert forall|i: int| 0 <= i < cl.len() implies nl_free(#[trigger] cl[i]) && free_of(cl[i], '\r') by {
        assert(pool.contains(cl[i]));
        let j = choose|j: int| 0 <= j < pool.len() && pool[j] == cl[i];
        if j < ls.len() {
            assert(pool[j] == ls[j]);
        }
    }
    assert forall|i: int| 0 <= i < cl.len() implies strip_cr(#[trigger] cl[i]) == cl[i] by {
        assert(free_of(cl[i], '\r'));
        if cl[i].len() > 0 {
            assert(cl[i].last() == cl[i][cl[i].len() - 1]);
        }
    }
    assert(cl.len() > 0);
    let j = join(cl, nl);
    let t = merged_cargo_config(content, m, s);
    if ends_with(j, nl) {
        lemma_join_nl_end(cl);
        let d = cl.drop_last();
        assert(d + Seq::<Seq<char>>::empty() =~= d);
        assert forall|i: int| 0 <= i < d.len() implies nl_free(#[trigger] d[i]) by {
            assert(d[i] == cl[i]);
        }
        lemma_lines_join(d, Seq::<Seq<char>>::empty());
        assert(d.map_values(|x: Seq<char>| strip_cr(x)) =~= d) by {
            assert forall|i: int| 0 <= i < d.len() implies strip_cr(d[i]) == d[i] by {
                assert(d[i] == cl[i]);
            }
        }
        assert(t == join(d, nl).push('\n'));
        assert(lines(t) == d);
        assert(cl.last() =~= e);
        assert(cl =~= d.push(e));
        lemma_merge_blank_end(d, m, s);
        assert(merge_lines(d, m, s).push(e) == d.push(e));
        assert(merge_lines(d, m, s) =~= merge_lines(d, m, s).push(e).drop_last());
        assert(merge_lines(d, m, s) == d);
        assert(merged_lines(t, m, s) == merge_lines(d, m, s));
        let jd = join(d, nl);
        if ends_with(jd, nl) {
            assert(t.skip(t.len() - 2) =~= seq!['\n', '\n']) by {
                assert(jd.skip(jd.len() - 1) == nl);
                assert(jd[jd.len() - 1] == jd.skip(jd.len() - 1)[0]);
            }
        }
    } else {
        assert(cl + Seq::<Seq<char>>::empty() =~= cl);
        lemma_lines_join(cl, Seq::<Seq<char>>::empty());
        assert(cl.map_values(|x: Seq<char>| strip_cr(x)) =~= cl);
        assert(lines(t) == cl);
        assert(merged_lines(t, m, s) == merge_lines(cl, m, s));
    }
}

} // verus!
