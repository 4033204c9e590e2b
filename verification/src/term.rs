//! Terminal helpers: on/off labels, TTL input checks, text measured in
//! terminal cells (CJK and full-width characters take two), cyclic
//! selection, and mouse support.

use vstd::prelude::*;

use crate::text::{
    append, chars_of, contains, contains_v, eq, lower, starts_with, starts_with_v, to_lower,
    to_string, trim, trim_str,
};

verus! {

pub open spec fn on_off_text(v: bool) -> Seq<char> {
    if v {
        "[开]"@
    } else {
        "[关]"@
    }
}

pub fn on_off(v: bool) -> (r: String)
    ensures
        r@ == on_off_text(v),
{
    if v {
        to_string(&chars_of("[开]"))
    } else {
        to_string(&chars_of("[关]"))
    }
}

// ---------------------------------------------------------------------------
// TTL input
// ---------------------------------------------------------------------------

pub open spec fn is_digit(c: char) -> bool {
    '0' <= c && c <= '9'
}

pub open spec fn all_digits(s: Seq<char>) -> bool {
    forall|i: int| 0 <= i < s.len() ==> is_digit(#[trigger] s[i])
}

/// The value of a sequence of decimal digits.
pub open spec fn digits_value(s: Seq<char>) -> int
    decreases s.len(),
{
    if s.len() == 0 {
        0
    } else {
        digits_value(s.drop_last()) * 10 + ((s.last() as u32) - ('0' as u32))
    }
}

/// What `str::parse::<i64>` accepts: an optional sign, at least one digit,
/// and a value that fits; gives the value.
pub open spec fn i64_literal(s: Seq<char>) -> Option<int> {
    if s.len() > 0 && (s[0] == '+' || s[0] == '-') {
        let d = s.skip(1);
        if d.len() > 0 && all_digits(d) {
            let v = if s[0] == '-' {
                -digits_value(d)
            } else {
                digits_value(d)
            };
            if i64::MIN <= v <= i64::MAX {
                Some(v)
            } else {
                None
            }
        } else {
            None
        }
    } else if s.len() > 0 && all_digits(s) && digits_value(s) <= i64::MAX {
        Some(digits_value(s))
    } else {
        None
    }
}

/// Splitting off the unit would cut a character in two: the text is not
/// `-1`, `0` or a number, and its last character is not ASCII.
pub open spec fn ttl_splits_char(s: Seq<char>) -> bool {
    let t = trim(s);
    &&& t != "-1"@
    &&& t != "0"@
    &&& i64_literal(t) is None
    &&& t.len() > 0
    &&& (t.last() as u32) >= 0x80
}

/// A valid TTL: `-1` (never expires), `0` (always fetch), a positive number
/// of seconds, or a number followed by `h`, `m`, `s` or `d`.
pub open spec fn ttl_valid(s: Seq<char>) -> bool {
    let t = trim(s);
    if t == "-1"@ || t == "0"@ {
        true
    } else if i64_literal(t) is Some {
        i64_literal(t)->0 > 0
    } else if t.len() < 2 {
        false
    } else {
        &&& i64_literal(t.drop_last()) is Some
        &&& (t.last() == 'h' || t.last() == 'm' || t.last() == 's' || t.last() == 'd')
    }
}

/// The value of the digits of `s` from `start` on, when they are all digits
/// and the value is at most `limit`.
fn digits_upto(s: &Vec<char>, start: usize, limit: u64) -> (r: Option<u64>)
    requires
        start <= s.len(),
    ensures
        match r {
            Some(v) => all_digits(s@.skip(start as int)) && v == digits_value(s@.skip(start as int))
                && v <= limit,
            None => !all_digits(s@.skip(start as int)) || digits_value(s@.skip(start as int))
                > limit,
        },
{
    let mut acc: u64 = 0;
    let mut i: usize = start;
    let ghost d = s@.skip(start as int);
    assert(d.take(0) =~= Seq::<char>::empty());
    while i < s.len()
        invariant
            start <= i <= s.len(),
            d == s@.skip(start as int),
            all_digits(d.take(i - start)),
            acc == digits_value(d.take(i - start)),
            acc <= limit,
        decreases s.len() - i,
    {
        let c = s[i];
        let ghost t = d.take(i - start + 1);
        assert(t.drop_last() =~= d.take(i - start));
        assert(t.last() == c);
        if !('0' <= c && c <= '9') {
            assert(!is_digit(d[i - start]));
            return None;
        }
        assert(all_digits(t)) by {
            assert forall|j: int| 0 <= j < t.len() implies is_digit(#[trigger] t[j]) by {
                if j < t.len() - 1 {
                    assert(t[j] == d.take(i - start)[j]);
                }
            }
        }
        let dv: u32 = (c as u32) - ('0' as u32);
        let next: u128 = (acc as u128) * 10 + (dv as u128);
        if next > limit as u128 {
            proof {
                lemma_rest_stays_over(d, (i - start + 1) as int, limit as int);
            }
            return None;
        }
        acc = next as u64;
        i = i + 1;
    }
    assert(d.take(s.len() - start) =~= d);
    Some(acc)
}

proof fn lemma_digits_value_grows(s: Seq<char>)
    requires
        s.len() > 0,
        all_digits(s),
    ensures
        digits_value(s) >= digits_value(s.drop_last()),
        digits_value(s.drop_last()) >= 0,
    decreases s.len(),
{
    if s.len() > 1 {
        assert(all_digits(s.drop_last())) by {
            assert forall|j: int| 0 <= j < s.len() - 1 implies is_digit(#[trigger] s.drop_last()[j]) by {
                assert(s.drop_last()[j] == s[j]);
            }
        }
        lemma_digits_value_grows(s.drop_last());
    }
}

/// Once a prefix of digits is over the limit, the whole is over it or is
/// not all digits.
proof fn lemma_rest_stays_over(d: Seq<char>, n: int, limit: int)
    requires
        0 < n <= d.len(),
        all_digits(d.take(n)),
        digits_value(d.take(n)) > limit,
    ensures
        !all_digits(d) || digits_value(d) > limit,
    decreases d.len() - n,
{
    if n < d.len() {
        if is_digit(d[n]) {
            let t = d.take(n + 1);
            assert(t.drop_last() =~= d.take(n));
            assert(all_digits(t)) by {
                assert forall|i: int| 0 <= i < t.len() implies is_digit(#[trigger] t[i]) by {
                    if i < n {
                        assert(t[i] == d.take(n)[i]);
                    }
                }
            }
            lemma_digits_value_grows(t);
            lemma_rest_stays_over(d, n + 1, limit);
        } else {
            assert(!all_digits(d));
        }
    } else {
        assert(d.take(n) =~= d);
    }
}

/// `str::parse::<i64>`.
pub fn parse_i64_v(t: &Vec<char>) -> (r: Option<i64>)
    ensures
        match r {
            Some(v) => i64_literal(t@) == Some(v as int),
            None => i64_literal(t@) is None,
        },
{
    if t.len() == 0 {
        return None;
    }
    if t[0] == '+' || t[0] == '-' {
        if t.len() == 1 {
            return None;
        }
        let neg = t[0] == '-';
        let limit: u64 = if neg {
            9223372036854775808u64
        } else {
            9223372036854775807u64
        };
        match digits_upto(t, 1, limit) {
            None => None,
            Some(v) => {
                if neg {
                    if v == 9223372036854775808u64 {
                        Some(i64::MIN)
                    } else {
                        let x = v as i64;
                        Some(-x)
                    }
                } else {
                    Some(v as i64)
                }
            },
        }
    } else {
        assert(t@.skip(0) =~= t@);
        match digits_upto(t, 0, 9223372036854775807u64) {
            None => None,
            Some(v) => Some(v as i64),
        }
    }
}

/// Whether a TTL entry is valid. The entry's last character must be ASCII
/// unless the entry is `-1`, `0` or a number: it is split off as the unit.
pub fn valid_ttl(s: &str) -> (r: bool)
    requires
        !ttl_splits_char(s@),
    ensures
        r == ttl_valid(s@),
{
    let t = trim_str(s);
    proof {
        reveal_strlit("-1");
        reveal_strlit("0");
    }
    if eq(&t, &chars_of("-1")) || eq(&t, &chars_of("0")) {
        return true;
    }
    match parse_i64_v(&t) {
        Some(n) => {
            return n > 0;
        },
        None => {},
    }
    if t.len() < 2 {
        return false;
    }
    let num = crate::text::slice_of(&t, 0, t.len() - 1);
    assert(num@ =~= t@.drop_last());
    let unit = t[t.len() - 1];
    match parse_i64_v(&num) {
        Some(_) => unit == 'h' || unit == 'm' || unit == 's' || unit == 'd',
        None => false,
    }
}

// ---------------------------------------------------------------------------
// Cell widths
// ---------------------------------------------------------------------------

/// Code points shown two cells wide: Hangul Jamo, CJK radicals and
/// punctuation, kana, CJK ideographs and extensions, Yi, Hangul syllables,
/// compatibility ideographs and forms, and full-width forms.
pub open spec fn wide(cp: u32) -> bool {
    ||| 0x1100 <= cp <= 0x115F
    ||| 0x2E80 <= cp <= 0x303E
    ||| 0x3041 <= cp <= 0x33FF
    ||| 0x3400 <= cp <= 0x4DBF
    ||| 0x4E00 <= cp <= 0x9FFF
    ||| 0xA000 <= cp <= 0xA4CF
    ||| 0xAC00 <= cp <= 0xD7A3
    ||| 0xF900 <= cp <= 0xFAFF
    ||| 0xFE30 <= cp <= 0xFE4F
    ||| 0xFF00 <= cp <= 0xFF60
    ||| 0xFFE0 <= cp <= 0xFFE6
    ||| 0x20000 <= cp <= 0x2FFFD
    ||| 0x30000 <= cp <= 0x3FFFD
}

/// The cells a character takes.
pub open spec fn cell_w(c: char) -> nat {
    if (c as u32) < 0x80 {
        1
    } else if wide(c as u32) {
        2
    } else {
        1
    }
}

/// The cells a text takes.
pub open spec fn width_of(s: Seq<char>) -> nat
    decreases s.len(),
{
    if s.len() == 0 {
        0
    } else {
        width_of(s.drop_last()) + cell_w(s.last())
    }
}

pub fn cell_width(c: char) -> (r: usize)
    ensures
        r == cell_w(c),
{
    let cp = c as u32;
    if cp < 0x80 {
        return 1;
    }
    if (0x1100 <= cp && cp <= 0x115F) || (0x2E80 <= cp && cp <= 0x303E) || (0x3041 <= cp && cp
        <= 0x33FF) || (0x3400 <= cp && cp <= 0x4DBF) || (0x4E00 <= cp && cp <= 0x9FFF) || (0xA000
        <= cp && cp <= 0xA4CF) || (0xAC00 <= cp && cp <= 0xD7A3) || (0xF900 <= cp && cp <= 0xFAFF)
        || (0xFE30 <= cp && cp <= 0xFE4F) || (0xFF00 <= cp && cp <= 0xFF60) || (0xFFE0 <= cp && cp
        <= 0xFFE6) || (0x20000 <= cp && cp <= 0x2FFFD) || (0x30000 <= cp && cp <= 0x3FFFD) {
        return 2;
    }
    1
}

proof fn lemma_width_bound(s: Seq<char>)
    ensures
        width_of(s) <= 2 * s.len(),
    decreases s.len(),
{
    if s.len() > 0 {
        lemma_width_bound(s.drop_last());
    }
}

fn width_v(s: &Vec<char>) -> (r: usize)
    requires
        s@.len() <= usize::MAX / 2,
    ensures
        r == width_of(s@),
{
    let mut w: usize = 0;
    let mut i: usize = 0;
    while i < s.len()
        invariant
            i <= s.len(),
            s@.len() <= usize::MAX / 2,
            w == width_of(s@.take(i as int)),
        decreases s.len() - i,
    {
        assert(s@.take(i + 1).drop_last() =~= s@.take(i as int));
        proof {
            lemma_width_bound(s@.take(i + 1));
        }
        w = w + cell_width(s[i]);
        i = i + 1;
    }
    assert(s@.take(s.len() as int) =~= s@);
    w
}

/// The cells a text takes in a terminal.
pub fn display_width(s: &str) -> (r: usize)
    requires
        s@.len() <= usize::MAX / 2,
    ensures
        r == width_of(s@),
{
    width_v(&chars_of(s))
}

/// How many leading characters fit into `limit` cells, stopping at the
/// first that does not fit.
pub open spec fn fit_count(s: Seq<char>, limit: int) -> nat
    decreases s.len(),
{
    if s.len() == 0 || cell_w(s[0]) > limit {
        0
    } else {
        1 + fit_count(s.drop_first(), limit - cell_w(s[0]))
    }
}

/// A text cut to `max` cells: unchanged when it fits, else as many leading
/// characters as fit into `max - 1` cells followed by `…`.
pub open spec fn truncated(s: Seq<char>, max: nat) -> Seq<char> {
    if width_of(s) <= max {
        s
    } else {
        let limit = if max >= 1 {
            max - 1
        } else {
            0
        };
        s.take(fit_count(s, limit) as int).push('…')
    }
}

pub fn truncate_cells(s: &str, max_cells: usize) -> (r: String)
    requires
        s@.len() <= usize::MAX / 2,
    ensures
        r@ == truncated(s@, max_cells as nat),
{
    let c = chars_of(s);
    let ell = '…';
    let ell_w = cell_width(ell);
    if width_v(&c) <= max_cells {
        return to_string(&c);
    }
    let limit = max_cells.saturating_sub(ell_w);
    assert(cell_w('…') == 1);
    assert(c@.skip(0) =~= c@);
    assert(c@.take(0) =~= Seq::<char>::empty());
    let mut out: Vec<char> = Vec::new();
    let mut w: usize = 0;
    let mut i: usize = 0;
    while i < c.len()
        invariant
            i <= c.len(),
            c@ == s@,
            c@.len() <= usize::MAX / 2,
            w == width_of(c@.take(i as int)),
            w <= limit,
            out@ == c@.take(i as int),
            fit_count(c@, limit as int) == i + fit_count(c@.skip(i as int), limit - w),
        ensures
            i == c.len() || fit_count(c@.skip(i as int), limit - w) == 0,
        decreases c.len() - i,
    {
        let cw = cell_width(c[i]);
        let ghost rest = c@.skip(i as int);
        assert(rest[0] == c@[i as int]);
        if cw > limit - w {
            assert(fit_count(rest, limit - w) == 0);
            break;
        }
        assert(rest.drop_first() =~= c@.skip(i + 1));
        assert(c@.take(i + 1).drop_last() =~= c@.take(i as int));
        out.push(c[i]);
        assert(out@ =~= c@.take(i + 1));
        w = w + cw;
        i = i + 1;
    }
    proof {
        if i == c.len() {
            assert(c@.skip(i as int) =~= Seq::<char>::empty());
        }
        assert(fit_count(c@, limit as int) == i);
    }
    out.push(ell);
    to_string(&out)
}

proof fn lemma_width_concat(x: Seq<char>, y: Seq<char>)
    ensures
        width_of(x + y) == width_of(x) + width_of(y),
    decreases y.len(),
{
    if y.len() == 0 {
        assert(x + y =~= x);
    } else {
        lemma_width_concat(x, y.drop_last());
        assert((x + y).drop_last() =~= x + y.drop_last());
        assert((x + y).last() == y.last());
    }
}

/// The characters that `fit_count` keeps take at most `limit` cells.
proof fn lemma_fit_width(s: Seq<char>, limit: int)
    requires
        limit >= 0,
    ensures
        fit_count(s, limit) <= s.len(),
        width_of(s.take(fit_count(s, limit) as int)) <= limit,
    decreases s.len(),
{
    let n = fit_count(s, limit);
    if s.len() == 0 || cell_w(s[0]) > limit {
        assert(s.take(0) =~= Seq::<char>::empty());
    } else {
        let rest = s.drop_first();
        let l2 = limit - cell_w(s[0]);
        lemma_fit_width(rest, l2);
        let k = fit_count(rest, l2);
        assert(s.take(n as int) =~= seq![s[0]] + rest.take(k as int));
        lemma_width_concat(seq![s[0]], rest.take(k as int));
        assert(seq![s[0]].drop_last() =~= Seq::<char>::empty());
        assert(width_of(Seq::<char>::empty()) == 0);
        assert(width_of(seq![s[0]]) == cell_w(s[0]));
    }
}

/// A cut text is at most one character longer than the text.
pub(crate) proof fn lemma_truncated_len(s: Seq<char>, max: nat)
    ensures
        truncated(s, max).len() <= s.len() + 1,
{
    if width_of(s) > max {
        let limit: int = if max >= 1 {
            max - 1
        } else {
            0
        };
        lemma_fit_width(s, limit);
    }
}

/// A text cut to `max` cells (at least one) takes at most `max` cells.
pub proof fn lemma_truncated_fits(s: Seq<char>, max: nat)
    requires
        max >= 1,
    ensures
        width_of(truncated(s, max)) <= max,
{
    if width_of(s) > max {
        let k = fit_count(s, max - 1);
        lemma_fit_width(s, max - 1);
        let p = s.take(k as int);
        assert(p.push('…').drop_last() =~= p);
        assert(cell_w('…') == 1);
    }
}

/// A text padded to `target` cells takes `target` cells, or its own width
/// when that is more.
pub proof fn lemma_padded_width(s: Seq<char>, target: nat)
    ensures
        width_of(padded(s, target)) == if width_of(s) >= target {
            width_of(s)
        } else {
            target
        },
{
    if width_of(s) < target {
        let k = (target - width_of(s)) as nat;
        let sp = Seq::new(k, |i: int| ' ');
        lemma_width_concat(s, sp);
        lemma_spaces_width(k);
    }
}

proof fn lemma_spaces_width(k: nat)
    ensures
        width_of(Seq::new(k, |i: int| ' ')) == k,
    decreases k,
{
    if k > 0 {
        lemma_spaces_width((k - 1) as nat);
        assert(Seq::new(k, |i: int| ' ').drop_last() =~= Seq::new((k - 1) as nat, |i: int| ' '));
    }
}

/// A text padded with spaces on the right to `target` cells (never cut).
pub open spec fn padded(s: Seq<char>, target: nat) -> Seq<char> {
    if width_of(s) >= target {
        s
    } else {
        s + Seq::new((target - width_of(s)) as nat, |i: int| ' ')
    }
}

pub fn pad_cells(s: &str, target: usize) -> (r: String)
    requires
        s@.len() <= usize::MAX / 2,
    ensures
        r@ == padded(s@, target as nat),
{
    let c = chars_of(s);
    let w = width_v(&c);
    if w >= target {
        return to_string(&c);
    }
    let mut out = c;
    let n = target - w;
    let mut k: usize = 0;
    while k < n
        invariant
            k <= n,
            out@ == s@ + Seq::new(k as nat, |i: int| ' '),
        decreases n - k,
    {
        out.push(' ');
        assert(out@ =~= s@ + Seq::new((k + 1) as nat, |i: int| ' '));
        k = k + 1;
    }
    to_string(&out)
}

// ---------------------------------------------------------------------------
// Selection and mouse
// ---------------------------------------------------------------------------

/// Moving a selection by `delta` and then back by `-delta` returns to the
/// row it started from, in a list that is not empty.
pub proof fn lemma_shift_back(idx: int, delta: int, len: int)
    requires
        0 <= idx < len,
    ensures
        (((idx + delta) % len) - delta) % len == idx,
{
    let x = idx + delta;
    vstd::arithmetic::div_mod::lemma_fundamental_div_mod(x, len);
    let q = x / len;
    let a = x % len;
    assert(a - delta == len * (-q) + idx) by (nonlinear_arith)
        requires
            x == len * q + a,
            x == idx + delta,
    ;
    vstd::arithmetic::div_mod::lemma_mod_multiples_vanish(-q, idx, len);
    vstd::arithmetic::div_mod::lemma_small_mod(idx as nat, len as nat);
}

/// Moves a selection by `delta` in a list of `len` items, wrapping around
/// at both ends; 0 for an empty list.
pub fn shift(idx: usize, delta: isize, len: usize) -> (r: usize)
    requires
        idx <= isize::MAX,
        len <= isize::MAX,
        isize::MIN <= idx + delta <= isize::MAX,
    ensures
        len == 0 ==> r == 0,
        len > 0 ==> r == (idx + delta) % (len as int),
{
    if len == 0 {
        return 0;
    }
    let v: i128 = (idx as i128) + (delta as i128);
    let m: i128 = len as i128;
    if v >= 0 {
        let a = (v as u128) % (m as u128);
        a as usize
    } else {
        let nv: u128 = (-v) as u128;
        let a: u128 = nv % (m as u128);
        proof {
            let q = (nv as int) / (m as int);
            vstd::arithmetic::div_mod::lemma_fundamental_div_mod(nv as int, m as int);
            assert(nv as int == (m as int) * q + (a as int));
            if a == 0 {
                assert(v as int == (-q) * (m as int) + 0) by (nonlinear_arith)
                    requires
                        v as int == -(nv as int),
                        nv as int == (m as int) * q + (a as int),
                        a == 0,
                ;
                vstd::arithmetic::div_mod::lemma_fundamental_div_mod_converse(
                    v as int,
                    m as int,
                    -q,
                    0,
                );
            } else {
                assert(v as int == (-q - 1) * (m as int) + ((m as int) - (a as int))) by (nonlinear_arith)
                    requires
                        v as int == -(nv as int),
                        nv as int == (m as int) * q + (a as int),
                ;
                vstd::arithmetic::div_mod::lemma_fundamental_div_mod_converse(
                    v as int,
                    m as int,
                    -q - 1,
                    (m as int) - (a as int),
                );
            }
        }
        if a == 0 {
            0
        } else {
            ((m as u128) - a) as usize
        }
    }
}

/// Run-time check of mouse reports: the first position outside the
/// terminal shows the terminal's mouse protocol is broken, and mouse input
/// stays off from then on.
pub struct MouseGuard {
    ok: bool,
}

impl MouseGuard {
    pub closed spec fn live(&self) -> bool {
        self.ok
    }

    pub fn new() -> (g: MouseGuard)
        ensures
            g.live(),
    {
        MouseGuard { ok: true }
    }

    pub fn is_ok(&self) -> (r: bool)
        ensures
            r == self.live(),
    {
        self.ok
    }

    /// Checks one reported position against the terminal size.
    pub fn check(&mut self, col: u16, row: u16, width: u16, height: u16) -> (r: bool)
        ensures
            final(self).live() == (old(self).live() && col < width && row < height),
            r == final(self).live(),
    {
        if !self.ok {
            return false;
        }
        if col >= width || row >= height {
            self.ok = false;
        }
        self.ok
    }
}

/// Mouse support judged from `TERM`: off for `dumb` and `unknown`; on for
/// the xterm, screen, tmux and rxvt families, any 256-colour terminal and
/// the Linux console; on without `TERM` (as in Windows consoles).
pub open spec fn mouse_capable(term: Option<Seq<char>>) -> bool {
    match term {
        None => true,
        Some(t0) => {
            let t = lower(t0);
            if t == "dumb"@ || t == "unknown"@ {
                false
            } else {
                starts_with(t, "xterm"@) || starts_with(t, "screen"@) || starts_with(t, "tmux"@)
                    || starts_with(t, "rxvt"@) || contains(t, "256color"@) || t == "linux"@
            }
        },
    }
}

/// Whether to turn mouse input on, given the value of `TERM` if set.
pub fn should_enable_mouse(term: Option<&str>) -> (r: bool)
    ensures
        r == mouse_capable(
            match term {
                Some(t) => Some(t@),
                None => None,
            },
        ),
{
    let t = match term {
        None => {
            return true;
        },
        Some(t) => to_lower(&chars_of(t)),
    };
    if eq(&t, &chars_of("dumb")) || eq(&t, &chars_of("unknown")) {
        return false;
    }
    starts_with_v(&t, &chars_of("xterm")) || starts_with_v(&t, &chars_of("screen"))
        || starts_with_v(&t, &chars_of("tmux")) || starts_with_v(&t, &chars_of("rxvt"))
        || contains_v(&t, &chars_of("256color")) || eq(&t, &chars_of("linux"))
}

} // verus!
