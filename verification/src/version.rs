//! Version strings and their order.
//!
//! A version is read as dot- (or underscore-) separated segments compared one
//! by one, numbers numerically and text by characters, so that
//! `1.9 < 1.10 < 2.0-rc1 < 2.0`, `21.5 < 21.5.1` and `2024.2.1 < 2024.10.12`.
//! Surrounding whitespace, leading `v`/`V` and build metadata after `+` are
//! ignored; a part after the first `-` is a pre-release, which orders before
//! the release with the same main part.

use std::cmp::Ordering;

use vstd::prelude::*;

use crate::order::{
    char_order_fn, flip, int_order, is_le, lemma_char_order_total, lemma_lex_eq, lemma_lex_flip,
    lemma_lex_refl, lemma_lex_skip, lemma_lex_trans, lex, text_compare, text_order, total_order,
    Order3,
};
use crate::sort::{is_perm, sorted_by, stably_sorted};
use crate::text::{
    append_str, chars_of, find, find_first, lemma_find_first_props, lemma_find_first_is, is_ascii_digit, occurs_at, slice_of, strip_lead, strip_lead_v,
    starts_with, trim, trim_v, eq, starts_with_v, to_string,
};

verus! {

// ---------------------------------------------------------------------------
// Segments
// ---------------------------------------------------------------------------

/// A version segment as it is ordered: a number or a piece of text.
pub enum SegV {
    Num(int),
    Text(Seq<char>),
}

/// Numbers order before text; numbers by value, text by characters.
pub open spec fn seg_order(x: SegV, y: SegV) -> Order3 {
    match (x, y) {
        (SegV::Num(a), SegV::Num(b)) => int_order(a, b),
        (SegV::Num(_), SegV::Text(_)) => Order3::Less,
        (SegV::Text(_), SegV::Num(_)) => Order3::Greater,
        (SegV::Text(a), SegV::Text(b)) => text_order(a, b),
    }
}

pub open spec fn seg_order_fn() -> spec_fn(SegV, SegV) -> Order3 {
    |x: SegV, y: SegV| seg_order(x, y)
}

pub proof fn lemma_seg_order_total()
    ensures
        total_order(seg_order_fn()),
{
    let f = char_order_fn();
    lemma_char_order_total();
    let g = seg_order_fn();
    assert forall|x: SegV| #[trigger] g(x, x) == Order3::Equal by {
        if let SegV::Text(a) = x {
            lemma_lex_refl(a, f);
        }
    }
    assert forall|x: SegV, y: SegV| #[trigger] g(x, y) == Order3::Equal implies x == y by {
        if let (SegV::Text(a), SegV::Text(b)) = (x, y) {
            lemma_lex_eq(a, b, f);
        }
    }
    assert forall|x: SegV, y: SegV| #[trigger] g(x, y) == flip(g(y, x)) by {
        if let (SegV::Text(a), SegV::Text(b)) = (x, y) {
            lemma_lex_flip(a, b, f);
        }
    }
    assert forall|x: SegV, y: SegV, z: SegV|
        is_le(#[trigger] g(x, y)) && is_le(#[trigger] g(y, z)) implies is_le(g(x, z)) by {
        if let (SegV::Text(a), SegV::Text(b), SegV::Text(c)) = (x, y, z) {
            lemma_lex_trans(a, b, c, f);
        }
    }
}

/// Value of a decimal digit character.
pub open spec fn digit_val(c: char) -> int {
    (c as u32) as int - 48
}

/// Value of a string of decimal digits.
pub open spec fn digits_value(s: Seq<char>) -> int
    decreases s.len(),
{
    if s.len() == 0 {
        0
    } else {
        digits_value(s.drop_last()) * 10 + digit_val(s.last())
    }
}

pub open spec fn all_digits(s: Seq<char>) -> bool {
    forall|i: int| 0 <= i < s.len() ==> is_ascii_digit(#[trigger] s[i])
}

/// `s.parse::<u64>()` succeeds on `s` (segments never hold a sign).
pub open spec fn is_u64_text(s: Seq<char>) -> bool {
    s.len() > 0 && all_digits(s) && digits_value(s) <= u64::MAX
}

/// A segment read as a number when it parses as `u64`, else as text.
pub open spec fn seg_of(s: Seq<char>) -> SegV {
    if is_u64_text(s) {
        SegV::Num(digits_value(s))
    } else {
        SegV::Text(s)
    }
}

proof fn lemma_digits_value_nonneg(s: Seq<char>)
    requires
        all_digits(s),
    ensures
        digits_value(s) >= 0,
    decreases s.len(),
{
    if s.len() > 0 {
        assert(all_digits(s.drop_last())) by {
            assert forall|i: int| 0 <= i < s.drop_last().len() implies is_ascii_digit(
                #[trigger] s.drop_last()[i],
            ) by {
                assert(s.drop_last()[i] == s[i]);
            }
        }
        lemma_digits_value_nonneg(s.drop_last());
        assert(is_ascii_digit(s[s.len() - 1]));
    }
}

/// Adding digits never makes the value smaller.
proof fn lemma_digits_value_mono(s: Seq<char>, k: int)
    requires
        all_digits(s),
        0 <= k <= s.len(),
    ensures
        digits_value(s.take(k)) <= digits_value(s),
    decreases s.len(),
{
    if k < s.len() {
        let d = s.drop_last();
        assert(all_digits(d)) by {
            assert forall|i: int| 0 <= i < d.len() implies is_ascii_digit(#[trigger] d[i]) by {
                assert(d[i] == s[i]);
            }
        }
        lemma_digits_value_mono(d, k);
        assert(d.take(k) =~= s.take(k));
        lemma_digits_value_nonneg(d);
        assert(is_ascii_digit(s[s.len() - 1]));
    } else {
        assert(s.take(k) =~= s);
    }
}

/// `s.parse::<u64>()` for a segment.
fn parse_u64(s: &Vec<char>) -> (r: Option<u64>)
    ensures
        match r {
            Some(n) => is_u64_text(s@) && n == digits_value(s@),
            None => !is_u64_text(s@),
        },
{
    if s.len() == 0 {
        return None;
    }
    let mut acc: u64 = 0;
    let mut i: usize = 0;
    while i < s.len()
        invariant
            0 < s.len(),
            i <= s.len(),
            all_digits(s@.take(i as int)),
            acc == digits_value(s@.take(i as int)),
        decreases s.len() - i,
    {
        let c = s[i];
        if !('0' <= c && c <= '9') {
            assert(!all_digits(s@));
            return None;
        }
        let d = (c as u32 - 48) as u64;
        let ghost t = s@.take(i + 1);
        assert(t.drop_last() =~= s@.take(i as int));
        assert(all_digits(t)) by {
            assert forall|j: int| 0 <= j < t.len() implies is_ascii_digit(#[trigger] t[j]) by {
                if j < i {
                    assert(t[j] == s@.take(i as int)[j]);
                }
            }
        }
        if acc > 1844674407370955161 || (acc == 1844674407370955161 && d > 5) {
            proof {
                if all_digits(s@) {
                    lemma_digits_value_mono(s@, i + 1);
                }
            }
            return None;
        }
        acc = acc * 10 + d;
        i = i + 1;
    }
    assert(s@.take(s.len() as int) =~= s@);
    Some(acc)
}

/// A version segment: a number or a piece of text.
#[derive(Debug)]
pub enum Seg {
    Num(u64),
    Text(Vec<char>),
}

impl Seg {
    pub open spec fn view(&self) -> SegV {
        match self {
            Seg::Num(n) => SegV::Num(*n as int),
            Seg::Text(t) => SegV::Text(t@),
        }
    }
}

pub open spec fn seg_views(v: Seq<Seg>) -> Seq<SegV> {
    v.map_values(|s: Seg| s.view())
}

fn seg_compare(a: &Seg, b: &Seg) -> (r: Order3)
    ensures
        r == seg_order(a.view(), b.view()),
{
    match (a, b) {
        (Seg::Num(x), Seg::Num(y)) => {
            if *x < *y {
                Order3::Less
            } else if *x == *y {
                Order3::Equal
            } else {
                Order3::Greater
            }
        },
        (Seg::Num(_), Seg::Text(_)) => Order3::Less,
        (Seg::Text(_), Seg::Num(_)) => Order3::Greater,
        (Seg::Text(x), Seg::Text(y)) => text_compare(x, y),
    }
}

fn segs_compare(a: &Vec<Seg>, b: &Vec<Seg>) -> (r: Order3)
    ensures
        r == lex(seg_views(a@), seg_views(b@), seg_order_fn()),
{
    let ghost f = seg_order_fn();
    let ghost va = seg_views(a@);
    let ghost vb = seg_views(b@);
    proof {
        lemma_seg_order_total();
    }
    let mut i: usize = 0;
    while i < a.len() && i < b.len()
        invariant
            i <= a.len(),
            i <= b.len(),
            f == seg_order_fn(),
            total_order(f),
            va == seg_views(a@),
            vb == seg_views(b@),
            forall|j: int| 0 <= j < i ==> va[j] == vb[j],
        decreases a.len() - i,
    {
        let o = seg_compare(&a[i], &b[i]);
        proof {
            assert(va[i as int] == a@[i as int].view());
            assert(vb[i as int] == b@[i as int].view());
        }
        if o != Order3::Equal {
            proof {
                lemma_lex_skip(va, vb, f, i as int);
                assert(va.skip(i as int)[0] == va[i as int]);
                assert(vb.skip(i as int)[0] == vb[i as int]);
                assert(lex(va.skip(i as int), vb.skip(i as int), f) == f(va[i as int], vb[i as int]));
            }
            return o;
        }
        proof {
            assert(f(va[i as int], vb[i as int]) == Order3::Equal);
        }
        i = i + 1;
    }
    proof {
        lemma_lex_skip(va, vb, f, i as int);
    }
    if a.len() == b.len() {
        Order3::Equal
    } else if i == a.len() {
        Order3::Less
    } else {
        Order3::Greater
    }
}

// ---------------------------------------------------------------------------
// Splitting a version into segments
// ---------------------------------------------------------------------------

pub open spec fn is_seg_sep(c: char) -> bool {
    c == '.' || c == '_'
}

/// The pieces of `s` between separators (`str::split(['.', '_'])`).
pub open spec fn split_seps(s: Seq<char>) -> Seq<Seq<char>>
    decreases s.len(),
{
    if s.len() == 0 {
        seq![Seq::<char>::empty()]
    } else {
        let r = split_seps(s.drop_last());
        if is_seg_sep(s.last()) {
            r.push(Seq::<char>::empty())
        } else {
            r.update(r.len() - 1, r.last().push(s.last()))
        }
    }
}

proof fn lemma_split_seps_len(s: Seq<char>)
    ensures
        split_seps(s).len() >= 1,
    decreases s.len(),
{
    if s.len() > 0 {
        lemma_split_seps_len(s.drop_last());
    }
}

/// The non-empty pieces, in order.
pub open spec fn nonempty_pieces(p: Seq<Seq<char>>) -> Seq<Seq<char>>
    decreases p.len(),
{
    if p.len() == 0 {
        p
    } else if p.last().len() > 0 {
        nonempty_pieces(p.drop_last()).push(p.last())
    } else {
        nonempty_pieces(p.drop_last())
    }
}

/// The segments of a part of a version.
pub open spec fn segs(s: Seq<char>) -> Seq<SegV> {
    nonempty_pieces(split_seps(s)).map_values(|t: Seq<char>| seg_of(t))
}

fn segs_of(s: &Vec<char>) -> (r: Vec<Seg>)
    ensures
        seg_views(r@) == segs(s@),
{
    let mut out: Vec<Seg> = Vec::new();
    let mut cur: Vec<char> = Vec::new();
    let mut i: usize = 0;
    proof {
        assert(s@.take(0) =~= Seq::<char>::empty());
    }
    while i < s.len()
        invariant
            i <= s.len(),
            split_seps(s@.take(i as int)).len() >= 1,
            seg_views(out@) == nonempty_pieces(split_seps(s@.take(i as int)).drop_last()).map_values(
                |t: Seq<char>| seg_of(t),
            ),
            cur@ == split_seps(s@.take(i as int)).last(),
        decreases s.len() - i,
    {
        let c = s[i];
        let ghost pre = s@.take(i as int);
        let ghost p0 = split_seps(pre);
        assert(s@.take(i + 1).drop_last() =~= pre);
        if c == '.' || c == '_' {
            let ghost old_out = out@;
            let ghost p1 = split_seps(s@.take(i + 1));
            proof {
                assert(p1 == p0.push(Seq::<char>::empty()));
                assert(p1.drop_last() =~= p0);
                assert(p0 =~= p0.drop_last().push(p0.last()));
            }
            if cur.len() > 0 {
                let seg = match parse_u64(&cur) {
                    Some(n) => Seg::Num(n),
                    None => Seg::Text(cur),
                };
                out.push(seg);
                proof {
                    assert(seg_views(out@) =~= seg_views(old_out).push(seg_of(p0.last())));
                }
            }
            cur = Vec::new();
        } else {
            cur.push(c);
            proof {
                let p1 = split_seps(s@.take(i + 1));
                assert(p1 == p0.update(p0.len() - 1, p0.last().push(c)));
                assert(p1.drop_last() =~= p0.drop_last());
            }
        }
        i = i + 1;
        proof {
            lemma_split_seps_len(s@.take(i as int));
        }
    }
    assert(s@.take(s.len() as int) =~= s@);
    let ghost p = split_seps(s@);
    assert(p =~= p.drop_last().push(p.last()));
    if cur.len() > 0 {
        let ghost old_out = out@;
        let seg = match parse_u64(&cur) {
            Some(n) => Seg::Num(n),
            None => Seg::Text(cur),
        };
        out.push(seg);
        proof {
            assert(seg_views(out@) =~= seg_views(old_out).push(seg_of(p.last())));
        }
    }
    out
}

/// A version with surrounding whitespace, leading `v`s then `V`s, and build
/// metadata (from the first `+`) removed.
pub open spec fn clean_version(v: Seq<char>) -> Seq<char> {
    let t = strip_lead(strip_lead(trim(v), 'v'), 'V');
    match find_first(t, seq!['+']) {
        Some(i) => t.take(i),
        None => t,
    }
}

/// The main segments of a version and, after the first `-`, its pre-release segments.
pub struct VParts {
    pub core: Seq<SegV>,
    pub pre: Option<Seq<SegV>>,
}

pub open spec fn version_parts(v: Seq<char>) -> VParts {
    let t = clean_version(v);
    match find_first(t, seq!['-']) {
        Some(i) => VParts { core: segs(t.take(i)), pre: Some(segs(t.skip(i + 1))) },
        None => VParts { core: segs(t), pre: None },
    }
}

/// Main segments first; then a release orders after a pre-release; then the
/// pre-release segments.
pub open spec fn parts_order(a: VParts, b: VParts) -> Order3 {
    let c = lex(a.core, b.core, seg_order_fn());
    if c != Order3::Equal {
        c
    } else {
        match (a.pre, b.pre) {
            (Some(_), None) => Order3::Less,
            (None, Some(_)) => Order3::Greater,
            (Some(x), Some(y)) => lex(x, y, seg_order_fn()),
            (None, None) => Order3::Equal,
        }
    }
}

/// The order of two version strings.
pub open spec fn version_order(a: Seq<char>, b: Seq<char>) -> Order3 {
    parts_order(version_parts(a), version_parts(b))
}

fn clean_version_v(v: &str) -> (t: Vec<char>)
    ensures
        t@ == clean_version(v@),
{
    let chars = chars_of(v);
    let t0 = trim_v(&chars);
    let t1 = strip_lead_v(&t0, 'v');
    let t2 = strip_lead_v(&t1, 'V');
    let plus = vec!['+'];
    assert(plus@ =~= seq!['+']);
    let t = match find(&t2, &plus) {
        Some(i) => slice_of(&t2, 0, i),
        None => t2,
    };
    proof {
        assert(plus@ =~= seq!['+']);
        if let Some(i) = find_first(t2@, seq!['+']) {
            lemma_find_first_props(t2@, seq!['+']);
            assert(t2@.subrange(0, i) =~= t2@.take(i));
        }
        assert(t@ == clean_version(v@));
    }
    t
}

/// `(main segments, pre-release segments, has pre-release)` of a version.
fn split_version(v: &str) -> (r: (Vec<Seg>, Option<Vec<Seg>>, bool))
    ensures
        seg_views(r.0@) == version_parts(v@).core,
        r.2 == (r.1 is Some),
        match (r.1, version_parts(v@).pre) {
            (Some(x), Some(y)) => seg_views(x@) == y,
            (None, None) => true,
            _ => false,
        },
{
    let t = clean_version_v(v);
    let dash = vec!['-'];
    proof {
        assert(dash@ =~= seq!['-']);
    }
    match find(&t, &dash) {
        Some(i) => {
            assert(occurs_at(t@, dash@, i as int));
            let core = slice_of(&t, 0, i);
            let pre = slice_of(&t, i + 1, t.len());
            proof {
                lemma_find_first_props(t@, seq!['-']);
                assert(occurs_at(t@, seq!['-'], i as int));
                assert(t@.subrange(0, i as int) =~= t@.take(i as int));
                assert(t@.subrange(i + 1, t@.len() as int) =~= t@.skip(i + 1));
            }
            let c = segs_of(&core);
            let p = segs_of(&pre);
            (c, Some(p), true)
        },
        None => {
            let c = segs_of(&t);
            (c, None, false)
        },
    }
}

/// Compares two version strings (see the module documentation).
pub fn version_compare(a: &str, b: &str) -> (r: Order3)
    ensures
        r == version_order(a@, b@),
{
    let (a_core, a_pre, a_is_pre) = split_version(a);
    let (b_core, b_pre, b_is_pre) = split_version(b);
    let c = segs_compare(&a_core, &b_core);
    if c != Order3::Equal {
        return c;
    }
    if a_is_pre && !b_is_pre {
        return Order3::Less;
    }
    if !a_is_pre && b_is_pre {
        return Order3::Greater;
    }
    match (&a_pre, &b_pre) {
        (Some(x), Some(y)) => segs_compare(x, y),
        _ => Order3::Equal,
    }
}

// ---------------------------------------------------------------------------
// Laws of the version order
// ---------------------------------------------------------------------------

/// Every version orders equal to itself.
pub proof fn lemma_version_order_refl(a: Seq<char>)
    ensures
        version_order(a, a) == Order3::Equal,
{
    lemma_seg_order_total();
    let p = version_parts(a);
    lemma_lex_refl(p.core, seg_order_fn());
    if let Some(x) = p.pre {
        lemma_lex_refl(x, seg_order_fn());
    }
}

/// A text without `-` has no pre-release part, and one with a single main
/// part `c` before the first `-` has the rest as its pre-release part.
proof fn lemma_dash_split(c: Seq<char>, x: Seq<char>)
    requires
        !c.contains('-'),
        !x.contains('-'),
    ensures
        find_first(x, seq!['-']) is None,
        find_first(c + seq!['-'] + x, seq!['-']) == Some(c.len() as int),
        (c + seq!['-'] + x).take(c.len() as int) == c,
        (c + seq!['-'] + x).skip(c.len() as int + 1) == x,
{
    let d = seq!['-'];
    lemma_find_first_props(x, d);
    if let Some(i) = find_first(x, d) {
        assert(x.subrange(i, i + 1)[0] == x[i]);
        assert(x.contains(x[i]));
    }
    let s = c + d + x;
    let n = c.len() as int;
    assert(s.subrange(n, n + 1) =~= d);
    assert forall|j: int| 0 <= j < n implies !occurs_at(s, d, j) by {
        if occurs_at(s, d, j) {
            assert(s.subrange(j, j + 1)[0] == s[j]);
            assert(s[j] == c[j]);
            assert(c.contains(c[j]));
        }
    }
    lemma_find_first_is(s, d, n);
    assert(s.take(n) =~= c);
    assert(s.skip(n + 1) =~= x);
}

/// The part after the first `-` is ordered like a version of its own: two
/// pre-releases of one main part compare as their pre-release parts do
/// (`1.0.0-beta.2 < 1.0.0-beta.10` as `beta.2 < beta.10`), for versions
/// written plainly (no surrounding blanks, no leading `v`, no `+`).
pub proof fn lemma_pre_release_order(c: Seq<char>, x: Seq<char>, y: Seq<char>)
    requires
        !c.contains('-'),
        !x.contains('-'),
        !y.contains('-'),
        clean_version(c + seq!['-'] + x) == c + seq!['-'] + x,
        clean_version(c + seq!['-'] + y) == c + seq!['-'] + y,
        clean_version(x) == x,
        clean_version(y) == y,
    ensures
        version_order(c + seq!['-'] + x, c + seq!['-'] + y) == version_order(x, y),
{
    lemma_dash_split(c, x);
    lemma_dash_split(c, y);
    lemma_seg_order_total();
    lemma_lex_refl(segs(c), seg_order_fn());
}

/// A text without separators is a single piece.
proof fn lemma_split_seps_single(s: Seq<char>)
    requires
        forall|i: int| 0 <= i < s.len() ==> !is_seg_sep(#[trigger] s[i]),
    ensures
        split_seps(s) == seq![s],
    decreases s.len(),
{
    if s.len() > 0 {
        let d = s.drop_last();
        assert forall|i: int| 0 <= i < d.len() implies !is_seg_sep(#[trigger] d[i]) by {
            assert(d[i] == s[i]);
        }
        lemma_split_seps_single(d);
        assert(!is_seg_sep(s[s.len() - 1]));
        assert(d.push(s.last()) =~= s);
        assert(split_seps(s) =~= seq![s]);
    } else {
        assert(s =~= Seq::<char>::empty());
    }
}

/// Numbers order by value, not by their digits as text: for numbers
/// written plainly, `9 < 10` and `2 < 10`.
pub proof fn lemma_numbers_by_value(a: Seq<char>, b: Seq<char>)
    requires
        is_u64_text(a),
        is_u64_text(b),
        clean_version(a) == a,
        clean_version(b) == b,
    ensures
        version_order(a, b) == int_order(digits_value(a), digits_value(b)),
{
    assert forall|i: int| 0 <= i < a.len() implies !is_seg_sep(#[trigger] a[i]) && a[i] != '-' by {
        assert(is_ascii_digit(a[i]));
    }
    assert forall|i: int| 0 <= i < b.len() implies !is_seg_sep(#[trigger] b[i]) && b[i] != '-' by {
        assert(is_ascii_digit(b[i]));
    }
    assert(!a.contains('-'));
    assert(!b.contains('-'));
    lemma_dash_split(a, a);
    lemma_dash_split(b, b);
    lemma_split_seps_single(a);
    lemma_split_seps_single(b);
    assert(seq![a].drop_last() =~= Seq::<Seq<char>>::empty());
    assert(seq![b].drop_last() =~= Seq::<Seq<char>>::empty());
    assert(nonempty_pieces(Seq::<Seq<char>>::empty()) =~= Seq::<Seq<char>>::empty());
    assert(seq![a].last() == a && seq![b].last() == b);
    assert(a.len() > 0 && b.len() > 0);
    assert(nonempty_pieces(seq![a]) =~= seq![a]);
    assert(nonempty_pieces(seq![b]) =~= seq![b]);
    let sa = segs(a);
    let sb = segs(b);
    assert(sa =~= seq![SegV::Num(digits_value(a))]);
    assert(sb =~= seq![SegV::Num(digits_value(b))]);
    assert(sa.drop_first() =~= Seq::<SegV>::empty());
    assert(sb.drop_first() =~= Seq::<SegV>::empty());
    let f = seg_order_fn();
    assert(f(sa[0], sb[0]) == int_order(digits_value(a), digits_value(b)));
    assert(lex(sa.drop_first(), sb.drop_first(), f) == Order3::Equal);
    assert(lex(sa, sb, f) == int_order(digits_value(a), digits_value(b)));
    assert(version_parts(a) == VParts { core: sa, pre: None });
    assert(version_parts(b) == VParts { core: sb, pre: None });
}

/// A pre-release orders before the release of the same main part:
/// `1.0.0-rc1 < 1.0.0`.
pub proof fn lemma_pre_release_first(c: Seq<char>, x: Seq<char>)
    requires
        !c.contains('-'),
        !x.contains('-'),
        clean_version(c + seq!['-'] + x) == c + seq!['-'] + x,
        clean_version(c) == c,
    ensures
        version_order(c + seq!['-'] + x, c) == Order3::Less,
{
    lemma_dash_split(c, x);
    lemma_dash_split(c, c);
    lemma_seg_order_total();
    lemma_lex_refl(segs(c), seg_order_fn());
}

/// Comparing the other way round gives the opposite answer.
pub proof fn lemma_version_order_flip(a: Seq<char>, b: Seq<char>)
    ensures
        version_order(a, b) == flip(version_order(b, a)),
{
    lemma_seg_order_total();
    let p = version_parts(a);
    let q = version_parts(b);
    lemma_lex_flip(p.core, q.core, seg_order_fn());
    if let (Some(x), Some(y)) = (p.pre, q.pre) {
        lemma_lex_flip(x, y, seg_order_fn());
    }
}

/// "Not after" is transitive.
pub proof fn lemma_version_order_trans(a: Seq<char>, b: Seq<char>, c: Seq<char>)
    requires
        is_le(version_order(a, b)),
        is_le(version_order(b, c)),
    ensures
        is_le(version_order(a, c)),
{
    lemma_seg_order_total();
    let f = seg_order_fn();
    let p = version_parts(a);
    let q = version_parts(b);
    let r = version_parts(c);
    let ab = lex(p.core, q.core, f);
    let bc = lex(q.core, r.core, f);
    lemma_lex_flip(p.core, q.core, f);
    lemma_lex_flip(q.core, r.core, f);
    lemma_lex_flip(p.core, r.core, f);
    if ab == Order3::Equal {
        lemma_lex_eq(p.core, q.core, f);
    }
    if bc == Order3::Equal {
        lemma_lex_eq(q.core, r.core, f);
    }
    assert(is_le(ab));
    assert(is_le(bc));
    lemma_lex_trans(p.core, q.core, r.core, f);
    let ac = lex(p.core, r.core, f);
    if ac == Order3::Equal {
        lemma_lex_eq(p.core, r.core, f);
        if ab != Order3::Equal {
            assert(bc == flip(ab));
        }
        if ab == Order3::Equal && bc == Order3::Equal {
            if let (Some(x), Some(y), Some(z)) = (p.pre, q.pre, r.pre) {
                lemma_lex_trans(x, y, z, f);
            }
        }
    }
}

/// A version before a second one that is not after a third is before the third.
pub proof fn lemma_version_order_strict_trans(a: Seq<char>, b: Seq<char>, c: Seq<char>)
    requires
        version_order(a, b) == Order3::Less,
        is_le(version_order(b, c)),
    ensures
        version_order(a, c) == Order3::Less,
{
    lemma_version_order_trans(a, b, c);
    if version_order(a, c) == Order3::Equal {
        lemma_version_order_flip(a, c);
        lemma_version_order_flip(a, b);
        lemma_version_order_trans(b, c, a);
    }
}

// ---------------------------------------------------------------------------
// Public interface
// ---------------------------------------------------------------------------

/// The `std::cmp::Ordering` that a three-way result stands for.
pub open spec fn ordering_of(o: Order3) -> Ordering {
    match o {
        Order3::Less => Ordering::Less,
        Order3::Equal => Ordering::Equal,
        Order3::Greater => Ordering::Greater,
    }
}

fn to_ordering(o: Order3) -> (r: Ordering)
    ensures
        r == ordering_of(o),
{
    match o {
        Order3::Less => Ordering::Less,
        Order3::Equal => Ordering::Equal,
        Order3::Greater => Ordering::Greater,
    }
}

/// Version comparison: dotted numbers segment by segment; a pre-release orders
/// before its release; equal main parts compare their pre-release segments.
/// `1.9 < 1.10 < 2.0-rc1 < 2.0`; `21.5.1 > 21.5` (more segments is greater).
pub fn compare_versions(a: &str, b: &str) -> (r: Ordering)
    ensures
        r == ordering_of(version_order(a@, b@)),
{
    let o = version_compare(a, b);
    to_ordering(o)
}

/// A tool version string.
pub struct Version(pub String);

impl Version {
    pub fn new(s: String) -> (r: Version)
        ensures
            r.0@ == s@,
    {
        Version(s)
    }

    pub fn as_str(&self) -> (r: &str)
        ensures
            r@ == self.0@,
    {
        self.0.as_str()
    }

    /// Directory name of an installed version (`v-` prefix).
    pub fn dir_name(&self) -> (r: String)
        ensures
            r@ == "v-"@ + self.0@,
    {
        let mut v: Vec<char> = Vec::new();
        append_str(&mut v, "v-");
        append_str(&mut v, self.0.as_str());
        to_string(&v)
    }

    /// The version order of the two strings (see [`compare_versions`]).
    pub fn compare(&self, other: &Version) -> (r: Ordering)
        ensures
            r == ordering_of(version_order(self.0@, other.0@)),
    {
        compare_versions(self.0.as_str(), other.0.as_str())
    }
}

/// Does `version` match the version prefix `query` (`"21"` matches `"21.5.1"`)?
/// Leading `v`s are ignored on both; an empty query matches nothing; the
/// prefix must be the whole version or be followed by `.` or `-`.
pub open spec fn prefix_match(query: Seq<char>, version: Seq<char>) -> bool {
    let q = strip_lead(query, 'v');
    let v = strip_lead(version, 'v');
    &&& q.len() > 0
    &&& (v == q || (starts_with(v, q) && v.len() > q.len() && (v[q.len() as int] == '.'
        || v[q.len() as int] == '-')))
}

pub fn is_prefix_match(query: &str, version: &str) -> (r: bool)
    ensures
        r == prefix_match(query@, version@),
{
    let qc = chars_of(query);
    let vc = chars_of(version);
    let q = strip_lead_v(&qc, 'v');
    let v = strip_lead_v(&vc, 'v');
    if q.len() == 0 {
        return false;
    }
    if eq(&v, &q) {
        return true;
    }
    starts_with_v(&v, &q) && v.len() > q.len() && (v[q.len()] == '.' || v[q.len()] == '-')
}

/// The character views of a sequence of strings.
pub open spec fn str_views(v: Seq<String>) -> Seq<Seq<char>> {
    v.map_values(|s: String| s@)
}

/// Each version is not after any version that follows it.
pub open spec fn versions_sorted(s: Seq<Seq<char>>) -> bool {
    forall|i: int, j: int| 0 <= i < j < s.len() ==> is_le(version_order(s[i], s[j]))
}

proof fn lemma_insert_sorted(s: Seq<Seq<char>>, p: int, x: Seq<char>)
    requires
        versions_sorted(s),
        0 <= p <= s.len(),
        forall|k: int| 0 <= k < p ==> version_order(x, s[k]) != Order3::Less,
        p < s.len() ==> version_order(x, s[p]) == Order3::Less,
    ensures
        versions_sorted(s.insert(p, x)),
{
    let t = s.insert(p, x);
    assert forall|i: int, j: int| 0 <= i < j < t.len() implies is_le(
        version_order(t[i], t[j]),
    ) by {
        if i < p && j < p {
            assert(t[i] == s[i] && t[j] == s[j]);
        } else if i < p && j == p {
            assert(t[i] == s[i] && t[j] == x);
            lemma_version_order_flip(s[i], x);
        } else if i < p && j > p {
            assert(t[i] == s[i] && t[j] == s[j - 1]);
        } else if i == p {
            assert(t[i] == x && t[j] == s[j - 1]);
            if j - 1 > p {
                lemma_version_order_strict_trans(x, s[p], s[j - 1]);
            }
        } else {
            assert(t[i] == s[i - 1] && t[j] == s[j - 1]);
        }
    }
}

/// "Not after" in version order.
pub open spec fn version_le() -> spec_fn(Seq<char>, Seq<char>) -> bool {
    |a: Seq<char>, b: Seq<char>| is_le(version_order(a, b))
}

/// `out` holds the items of `input` at the distinct positions `perm`,
/// all below `n`, sorted stably.
pub open spec fn stable_prefix(input: Seq<Seq<char>>, perm: Seq<usize>, out: Seq<Seq<char>>, n: int) -> bool {
    &&& perm.len() == out.len()
    &&& forall|k: int| 0 <= k < perm.len() ==> (#[trigger] perm[k]) < n
    &&& forall|a: int, b: int| 0 <= a < b < perm.len() ==> perm[a] != perm[b]
    &&& forall|k: int| 0 <= k < out.len() ==> out[k] == input[#[trigger] perm[k] as int]
    &&& sorted_by(version_le(), input, perm)
}

/// Inserting item `i` at `p`: where each item now sits.
proof fn lemma_insert_positions(input: Seq<Seq<char>>, perm: Seq<usize>, out: Seq<Seq<char>>, p: int, i: usize)
    requires
        perm.len() == out.len(),
        forall|k: int| 0 <= k < perm.len() ==> (#[trigger] perm[k]) < i,
        forall|a: int, b: int| 0 <= a < b < perm.len() ==> perm[a] != perm[b],
        forall|k: int| 0 <= k < out.len() ==> out[k] == input[#[trigger] perm[k] as int],
        0 <= i < input.len(),
        0 <= p <= out.len(),
    ensures
        ({
            let np = perm.insert(p, i);
            let no = out.insert(p, input[i as int]);
            &&& np.len() == no.len()
            &&& forall|k: int| 0 <= k < np.len() ==> (#[trigger] np[k]) < i + 1
            &&& forall|a: int, b: int| 0 <= a < b < np.len() ==> np[a] != np[b]
            &&& forall|k: int| 0 <= k < no.len() ==> no[k] == input[#[trigger] np[k] as int]
        }),
{
    let x = input[i as int];
    let np = perm.insert(p, i);
    let no = out.insert(p, x);
    assert forall|k: int| 0 <= k < no.len() implies no[k] == input[#[trigger] np[k] as int] by {
        if k < p {
            assert(no[k] == out[k] && np[k] == perm[k]);
        } else if k > p {
            assert(no[k] == out[k - 1] && np[k] == perm[k - 1]);
        }
    }
    assert forall|k: int| 0 <= k < np.len() implies (#[trigger] np[k]) < i + 1 by {
        if k < p {
            assert(np[k] == perm[k]);
        } else if k > p {
            assert(np[k] == perm[k - 1]);
        }
    }
    assert forall|a: int, b: int| 0 <= a < b < np.len() implies np[a] != np[b] by {
        if a != p && b != p {
            let a2 = if a < p { a } else { a - 1 };
            let b2 = if b < p { b } else { b - 1 };
            assert(np[a] == perm[a2] && np[b] == perm[b2]);
        } else if a == p {
            if b < p {
                assert(np[b] == perm[b]);
            } else {
                assert(np[b] == perm[b - 1]);
            }
        } else {
            assert(np[a] == perm[a]);
        }
    }
}

/// Inserting item `i` after every item not after it keeps the order stable.
#[verifier::spinoff_prover]
proof fn lemma_insert_stable(input: Seq<Seq<char>>, perm: Seq<usize>, out: Seq<Seq<char>>, p: int, i: usize)
    requires
        stable_prefix(input, perm, out, i as int),
        versions_sorted(out),
        0 <= i < input.len(),
        0 <= p <= out.len(),
        forall|k: int| 0 <= k < p ==> version_order(input[i as int], out[k]) != Order3::Less,
        p < out.len() ==> version_order(input[i as int], out[p]) == Order3::Less,
    ensures
        stable_prefix(input, perm.insert(p, i), out.insert(p, input[i as int]), i + 1),
        versions_sorted(out.insert(p, input[i as int])),
{
    let x = input[i as int];
    let np = perm.insert(p, i);
    let no = out.insert(p, x);
    lemma_insert_sorted(out, p, x);
    lemma_insert_positions(input, perm, out, p, i);
    let le = version_le();
    assert forall|a: int, b: int| #![trigger np[a], np[b]] 0 <= a < b < np.len() implies le(
        input[np[a] as int],
        input[np[b] as int],
    ) by {
        assert(no[a] == input[np[a] as int]);
        assert(no[b] == input[np[b] as int]);
    }
    assert forall|a: int, b: int| #![trigger np[a], np[b]]
        0 <= a < b < np.len() && le(input[np[b] as int], input[np[a] as int]) implies np[a] < np[b] by {
        if a != p && b != p {
            let a2 = if a < p { a } else { a - 1 };
            let b2 = if b < p { b } else { b - 1 };
            assert(np[a] == perm[a2] && np[b] == perm[b2]);
            assert(a2 < b2);
            assert(le(input[perm[b2] as int], input[perm[a2] as int]));
        } else if b == p {
            assert(np[a] == perm[a]);
            assert(perm[a] < i);
        } else {
            // the new item comes before items that are strictly after it
            assert(np[a] == i);
            assert(np[b] == perm[b - 1]);
            assert(out[b - 1] == input[perm[b - 1] as int]);
            if b - 1 > p {
                assert(is_le(version_order(out[p], out[b - 1])));
                lemma_version_order_strict_trans(x, out[p], out[b - 1]);
            }
            lemma_version_order_flip(out[b - 1], x);
            assert(!le(out[b - 1], x));
        }
    }
}

/// Sorts a list of versions in ascending version order.
/// The sort is stable: versions that compare equal keep their order.
pub fn sort_versions(versions: &mut Vec<String>)
    ensures
        str_views(final(versions)@).to_multiset() == str_views(old(versions)@).to_multiset(),
        versions_sorted(str_views(final(versions)@)),
        stably_sorted(
            version_le(),
            str_views(old(versions)@),
            str_views(old(versions)@),
            str_views(final(versions)@),
        ),
{
    let ghost input = str_views(versions@);
    let ghost mut perm: Seq<usize> = Seq::empty();
    let mut out: Vec<String> = Vec::new();
    let n = versions.len();
    let mut i: usize = 0;
    assert(input.take(0) =~= Seq::<Seq<char>>::empty());
    assert(str_views(out@) =~= Seq::<Seq<char>>::empty());
    while i < n
        invariant
            n == versions.len(),
            i <= n,
            input == str_views(versions@),
            versions_sorted(str_views(out@)),
            str_views(out@).to_multiset() == input.take(i as int).to_multiset(),
            stable_prefix(input, perm, str_views(out@), i as int),
            out.len() == i,
        decreases n - i,
    {
        let x = versions[i].clone();
        let mut p: usize = 0;
        while p < out.len() && version_compare(x.as_str(), out[p].as_str()) != Order3::Less
            invariant
                p <= out.len(),
                forall|k: int| 0 <= k < p ==> version_order(x@, str_views(out@)[k]) != Order3::Less,
            decreases out.len() - p,
        {
            p = p + 1;
        }
        let ghost before = str_views(out@);
        proof {
            lemma_insert_sorted(before, p as int, x@);
            lemma_insert_stable(input, perm, before, p as int, i);
            perm = perm.insert(p as int, i);
        }
        out.insert(p, x);
        proof {
            assert(str_views(out@) =~= before.insert(p as int, x@));
            vstd::seq_lib::to_multiset_insert(before, p as int, x@);
            assert(input.take(i + 1) =~= input.take(i as int).push(input[i as int]));
            vstd::seq_lib::to_multiset_build(input.take(i as int), input[i as int]);
        }
        i = i + 1;
    }
    assert(input.take(n as int) =~= input);
    proof {
        assert(is_perm(perm, input.len()));
    }
    *versions = out;
}


/// One step of counting the versions not after `v`.
pub open spec fn count_step(v: Seq<char>) -> spec_fn(nat, Seq<char>) -> nat {
    |n: nat, e: Seq<char>| if is_le(version_order(e, v)) { n + 1 } else { n }
}

/// How many versions of `s` are not after `v`.
pub open spec fn count_not_after(s: Seq<Seq<char>>, v: Seq<char>) -> nat {
    s.fold_left(0nat, count_step(v))
}

/// Lists holding the same versions have the same counts.
proof fn lemma_count_perm(s: Seq<Seq<char>>, t: Seq<Seq<char>>, v: Seq<char>)
    requires
        s.to_multiset() == t.to_multiset(),
    ensures
        count_not_after(s, v) == count_not_after(t, v),
{
    let f = count_step(v);
    assert(vstd::seq_lib::commutative_foldl(f));
    vstd::seq_lib::lemma_fold_left_permutation(s, t, f, 0nat);
}

/// When the first `m` versions are not after `v`, at least `m` are counted.
proof fn lemma_count_at_least(s: Seq<Seq<char>>, v: Seq<char>, m: int)
    requires
        0 <= m <= s.len(),
        forall|k: int| 0 <= k < m ==> is_le(version_order(#[trigger] s[k], v)),
    ensures
        count_not_after(s, v) >= m,
    decreases s.len(),
{
    if s.len() > 0 {
        let d = s.drop_last();
        if m == s.len() {
            lemma_count_at_least(d, v, m - 1);
            assert(is_le(version_order(s[m - 1], v)));
        } else {
            lemma_count_at_least(d, v, m);
        }
    }
}

/// When no version from position `m` on is before or at `v`, at most `m`
/// are counted.
proof fn lemma_count_at_most(s: Seq<Seq<char>>, v: Seq<char>, m: int)
    requires
        0 <= m <= s.len(),
        forall|k: int| m <= k < s.len() ==> !is_le(version_order(#[trigger] s[k], v)),
    ensures
        count_not_after(s, v) <= m,
    decreases s.len(),
{
    if s.len() > 0 {
        let d = s.drop_last();
        if m == s.len() {
            lemma_count_at_most(d, v, m - 1);
        } else {
            assert(!is_le(version_order(s[s.len() - 1], v)));
            lemma_count_at_most(d, v, m);
        }
    }
}

/// Sorting two lists that hold the same versions, in whatever order, gives
/// lists of one length whose versions compare equal position by position.
pub proof fn lemma_sorted_lists_agree(
    a: Seq<Seq<char>>,
    b: Seq<Seq<char>>,
    x: Seq<Seq<char>>,
    y: Seq<Seq<char>>,
)
    requires
        a.to_multiset() == b.to_multiset(),
        x.to_multiset() == a.to_multiset(),
        versions_sorted(x),
        y.to_multiset() == b.to_multiset(),
        versions_sorted(y),
    ensures
        x.len() == y.len(),
        forall|i: int| 0 <= i < x.len() ==> version_order(#[trigger] x[i], y[i]) == Order3::Equal,
{
    x.to_multiset_ensures();
    y.to_multiset_ensures();
    assert forall|i: int| 0 <= i < x.len() implies version_order(#[trigger] x[i], y[i])
        == Order3::Equal by {
        lemma_version_order_flip(x[i], y[i]);
        if version_order(x[i], y[i]) == Order3::Less {
            lemma_sorted_split(x, y, i);
        } else if version_order(x[i], y[i]) == Order3::Greater {
            lemma_sorted_split(y, x, i);
        }
    }
}

/// Of two sorted lists with the same versions, the one at `i` in `x` is
/// not before the one at `i` in `y`.
proof fn lemma_sorted_split(x: Seq<Seq<char>>, y: Seq<Seq<char>>, i: int)
    requires
        x.to_multiset() == y.to_multiset(),
        x.len() == y.len(),
        versions_sorted(x),
        versions_sorted(y),
        0 <= i < x.len(),
    ensures
        version_order(x[i], y[i]) != Order3::Less,
{
    if version_order(x[i], y[i]) == Order3::Less {
        let v = x[i];
        lemma_version_order_flip(x[i], y[i]);
        assert forall|k: int| 0 <= k < i + 1 implies is_le(version_order(#[trigger] x[k], v)) by {
            if k == i {
                lemma_version_order_refl(v);
            }
        }
        lemma_count_at_least(x, v, i + 1);
        assert forall|k: int| i <= k < y.len() implies !is_le(version_order(#[trigger] y[k], v)) by {
            if k > i && is_le(version_order(y[k], v)) {
                lemma_version_order_trans(y[i], y[k], v);
            }
        }
        lemma_count_at_most(y, v, i);
        lemma_count_perm(x, y, v);
    }
}

} // verus!
