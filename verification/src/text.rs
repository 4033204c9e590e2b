//! Character-level helpers shared by the parsers and writers of this crate.
//!
//! Text is handled as `Vec<char>` whose view is the `Seq<char>` of a `str`;
//! every helper states its result over that sequence.

use vstd::prelude::*;

verus! {

// ---------------------------------------------------------------------------
// Character classes
// ---------------------------------------------------------------------------

/// Unicode `White_Space`, the set that `char::is_whitespace` and `str::trim` use.
pub open spec fn is_ws(c: char) -> bool {
    let u = c as u32;
    ||| 0x9 <= u && u <= 0xd
    ||| u == 0x20
    ||| u == 0x85
    ||| u == 0xa0
    ||| u == 0x1680
    ||| 0x2000 <= u && u <= 0x200a
    ||| u == 0x2028
    ||| u == 0x2029
    ||| u == 0x202f
    ||| u == 0x205f
    ||| u == 0x3000
}

pub fn char_is_ws(c: char) -> (r: bool)
    ensures
        r == is_ws(c),
{
    let u = c as u32;
    (0x9 <= u && u <= 0xd) || u == 0x20 || u == 0x85 || u == 0xa0 || u == 0x1680 || (0x2000
        <= u && u <= 0x200a) || u == 0x2028 || u == 0x2029 || u == 0x202f || u == 0x205f || u
        == 0x3000
}

pub open spec fn is_ascii_upper(c: char) -> bool {
    'A' <= c && c <= 'Z'
}

pub open spec fn is_ascii_digit(c: char) -> bool {
    '0' <= c && c <= '9'
}

pub open spec fn is_ascii_hex(c: char) -> bool {
    ||| '0' <= c && c <= '9'
    ||| 'a' <= c && c <= 'f'
    ||| 'A' <= c && c <= 'F'
}

/// `char::to_ascii_lowercase`.
pub open spec fn lower_char(c: char) -> char {
    if is_ascii_upper(c) {
        ((c as u32) + 32) as char
    } else {
        c
    }
}

pub fn to_lower_char(c: char) -> (r: char)
    ensures
        r == lower_char(c),
{
    if 'A' <= c && c <= 'Z' {
        let b = (c as u8) + 32;
        b as char
    } else {
        c
    }
}

/// `str::to_ascii_lowercase` on a sequence of characters.
pub open spec fn lower(s: Seq<char>) -> Seq<char> {
    s.map_values(|c: char| lower_char(c))
}

// ---------------------------------------------------------------------------
// Conversions between str / String and Vec<char>
// ---------------------------------------------------------------------------

/// The characters of `s`, in order.
pub fn chars_of(s: &str) -> (v: Vec<char>)
    ensures
        v@ == s@,
{
    let mut v: Vec<char> = Vec::new();
    for c in it: s.chars()
        invariant
            v@ == it.seq().take(it.index() as int),
            it.seq() == s@,
    {
        v.push(c);
    }
    v
}

/// std's `String::push`: appends one character to the string.
#[verifier::external_body]
fn string_push(s: &mut String, c: char)
    ensures
        final(s)@ == old(s)@.push(c),
{
    s.push(c);
}

/// The string made of the characters of `v`.
pub fn to_string(v: &Vec<char>) -> (s: String)
    ensures
        s@ == v@,
{
    let mut s = String::new();
    let mut i: usize = 0;
    while i < v.len()
        invariant
            i <= v.len(),
            s@ == v@.take(i as int),
        decreases v.len() - i,
    {
        string_push(&mut s, v[i]);
        assert(v@.take(i as int).push(v@[i as int]) =~= v@.take(i + 1));
        i = i + 1;
    }
    assert(v@.take(v.len() as int) =~= v@);
    s
}

/// The characters of `s` (owned).
pub fn chars_of_string(s: &String) -> (v: Vec<char>)
    ensures
        v@ == s@,
{
    chars_of(s.as_str())
}

/// A copy of `v@.subrange(a, b)`.
pub fn slice_of(v: &Vec<char>, a: usize, b: usize) -> (r: Vec<char>)
    requires
        a <= b <= v.len(),
    ensures
        r@ == v@.subrange(a as int, b as int),
{
    let mut r: Vec<char> = Vec::new();
    let mut i = a;
    while i < b
        invariant
            a <= i <= b <= v.len(),
            r@ == v@.subrange(a as int, i as int),
        decreases b - i,
    {
        r.push(v[i]);
        assert(v@.subrange(a as int, i as int).push(v@[i as int]) =~= v@.subrange(
            a as int,
            i + 1,
        ));
        i = i + 1;
    }
    r
}

/// `a@ + b@`.
pub fn concat(a: &Vec<char>, b: &Vec<char>) -> (r: Vec<char>)
    ensures
        r@ == a@ + b@,
{
    let mut r = slice_of(a, 0, a.len());
    assert(a@.subrange(0, a@.len() as int) =~= a@);
    let mut i: usize = 0;
    while i < b.len()
        invariant
            i <= b.len(),
            r@ == a@ + b@.take(i as int),
        decreases b.len() - i,
    {
        r.push(b[i]);
        assert(a@ + b@.take(i as int) + seq![b@[i as int]] =~= a@ + b@.take(i + 1));
        i = i + 1;
    }
    assert(b@.take(b.len() as int) =~= b@);
    r
}

/// Appends `b` to `a` in place.
pub fn append(a: &mut Vec<char>, b: &Vec<char>)
    ensures
        final(a)@ == old(a)@ + b@,
{
    let mut i: usize = 0;
    let ghost a0 = a@;
    while i < b.len()
        invariant
            i <= b.len(),
            a@ == a0 + b@.take(i as int),
        decreases b.len() - i,
    {
        a.push(b[i]);
        assert(a0 + b@.take(i as int) + seq![b@[i as int]] =~= a0 + b@.take(i + 1));
        i = i + 1;
    }
    assert(b@.take(b.len() as int) =~= b@);
}

/// Appends the characters of `s` to `a`.
pub fn append_str(a: &mut Vec<char>, s: &str)
    ensures
        final(a)@ == old(a)@ + s@,
{
    let v = chars_of(s);
    append(a, &v);
}

/// Element-wise equality.
pub fn eq(a: &Vec<char>, b: &Vec<char>) -> (r: bool)
    ensures
        r == (a@ == b@),
{
    if a.len() != b.len() {
        return false;
    }
    let mut i: usize = 0;
    while i < a.len()
        invariant
            i <= a.len() == b.len(),
            forall|j: int| 0 <= j < i ==> a@[j] == b@[j],
        decreases a.len() - i,
    {
        if a[i] != b[i] {
            return false;
        }
        i = i + 1;
    }
    assert(a@ =~= b@);
    true
}

/// `str::to_ascii_lowercase`.
pub fn to_lower(v: &Vec<char>) -> (r: Vec<char>)
    ensures
        r@ == lower(v@),
{
    let mut r: Vec<char> = Vec::new();
    let mut i: usize = 0;
    while i < v.len()
        invariant
            i <= v.len(),
            r@ == lower(v@.take(i as int)),
        decreases v.len() - i,
    {
        let c = to_lower_char(v[i]);
        r.push(c);
        assert(lower(v@.take(i as int)).push(lower_char(v@[i as int])) =~= lower(
            v@.take(i + 1),
        ));
        i = i + 1;
    }
    assert(v@.take(v.len() as int) =~= v@);
    r
}

// ---------------------------------------------------------------------------
// Prefixes, suffixes and occurrences
// ---------------------------------------------------------------------------

pub open spec fn starts_with(s: Seq<char>, p: Seq<char>) -> bool {
    p.len() <= s.len() && s.take(p.len() as int) == p
}

pub open spec fn ends_with(s: Seq<char>, p: Seq<char>) -> bool {
    p.len() <= s.len() && s.skip(s.len() - p.len()) == p
}

/// `p` occurs in `s` starting at index `i`.
pub open spec fn occurs_at(s: Seq<char>, p: Seq<char>, i: int) -> bool {
    0 <= i && i + p.len() <= s.len() && s.subrange(i, i + p.len()) == p
}

pub open spec fn contains(s: Seq<char>, p: Seq<char>) -> bool {
    exists|i: int| occurs_at(s, p, i)
}

pub open spec fn has_char(s: Seq<char>, c: char) -> bool {
    exists|i: int| 0 <= i < s.len() && s[i] == c
}

/// Index of the first occurrence of `p` in `s` (`str::find`).
#[verifier::opaque]
pub open spec fn find_first(s: Seq<char>, p: Seq<char>) -> Option<int> {
    if contains(s, p) {
        Some(
            choose|i: int|
                occurs_at(s, p, i) && forall|j: int| 0 <= j < i ==> !occurs_at(s, p, j),
        )
    } else {
        None
    }
}

/// Index of the last occurrence of `p` in `s` (`str::rfind`).
#[verifier::opaque]
pub open spec fn find_last(s: Seq<char>, p: Seq<char>) -> Option<int> {
    if contains(s, p) {
        Some(
            choose|i: int|
                occurs_at(s, p, i) && forall|j: int| i < j ==> !occurs_at(s, p, j),
        )
    } else {
        None
    }
}

/// What `find_first` says of the index it gives.
pub proof fn lemma_find_first_props(s: Seq<char>, p: Seq<char>)
    ensures
        match find_first(s, p) {
            Some(i) => occurs_at(s, p, i) && forall|j: int| 0 <= j < i ==> !occurs_at(s, p, j),
            None => forall|j: int| !occurs_at(s, p, j),
        },
{
    reveal(find_first);
    if contains(s, p) {
        let w = choose|i: int| occurs_at(s, p, i);
        lemma_least_occurrence(s, p, w);
    }
}

/// What `find_last` says of the index it gives.
pub proof fn lemma_find_last_props(s: Seq<char>, p: Seq<char>)
    ensures
        match find_last(s, p) {
            Some(i) => occurs_at(s, p, i) && forall|j: int| i < j ==> !occurs_at(s, p, j),
            None => forall|j: int| !occurs_at(s, p, j),
        },
{
    reveal(find_last);
    if contains(s, p) {
        let w = choose|i: int| occurs_at(s, p, i);
        lemma_greatest_occurrence(s, p, w);
    }
}

proof fn lemma_least_occurrence(s: Seq<char>, p: Seq<char>, w: int)
    requires
        occurs_at(s, p, w),
    ensures
        exists|i: int| occurs_at(s, p, i) && forall|j: int| 0 <= j < i ==> !occurs_at(s, p, j),
    decreases w,
{
    if exists|j: int| 0 <= j < w && occurs_at(s, p, j) {
        let j = choose|j: int| 0 <= j < w && occurs_at(s, p, j);
        lemma_least_occurrence(s, p, j);
    } else {
        assert(forall|j: int| 0 <= j < w ==> !occurs_at(s, p, j));
    }
}

proof fn lemma_greatest_occurrence(s: Seq<char>, p: Seq<char>, w: int)
    requires
        occurs_at(s, p, w),
    ensures
        exists|i: int| occurs_at(s, p, i) && forall|j: int| i < j ==> !occurs_at(s, p, j),
    decreases s.len() - w,
{
    if exists|j: int| w < j && occurs_at(s, p, j) {
        let j = choose|j: int| w < j && occurs_at(s, p, j);
        lemma_greatest_occurrence(s, p, j);
    } else {
        assert(forall|j: int| w < j ==> !occurs_at(s, p, j));
    }
}

pub proof fn lemma_find_first_is(s: Seq<char>, p: Seq<char>, i: int)
    requires
        occurs_at(s, p, i),
        forall|j: int| 0 <= j < i ==> !occurs_at(s, p, j),
    ensures
        find_first(s, p) == Some(i),
{
    reveal(find_first);
    assert(contains(s, p));
    let k = choose|k: int| occurs_at(s, p, k) && forall|j: int| 0 <= j < k ==> !occurs_at(s, p, j);
    assert(occurs_at(s, p, k) && forall|j: int| 0 <= j < k ==> !occurs_at(s, p, j));
    if k < i {
        assert(!occurs_at(s, p, k));
    }
    if i < k {
        assert(!occurs_at(s, p, i));
    }
}

pub proof fn lemma_find_last_is(s: Seq<char>, p: Seq<char>, i: int)
    requires
        occurs_at(s, p, i),
        forall|j: int| i < j ==> !occurs_at(s, p, j),
    ensures
        find_last(s, p) == Some(i),
{
    reveal(find_last);
    assert(contains(s, p));
    let k = choose|k: int| occurs_at(s, p, k) && forall|j: int| k < j ==> !occurs_at(s, p, j);
    assert(occurs_at(s, p, k) && forall|j: int| k < j ==> !occurs_at(s, p, j));
    if k < i {
        assert(!occurs_at(s, p, i));
    }
    if i < k {
        assert(!occurs_at(s, p, k));
    }
}

/// Does `p` occur in `s` at index `i`?
pub fn matches_at(s: &Vec<char>, p: &Vec<char>, i: usize) -> (r: bool)
    requires
        i <= s.len(),
    ensures
        r == occurs_at(s@, p@, i as int),
{
    if p.len() > s.len() - i {
        return false;
    }
    let mut k: usize = 0;
    while k < p.len()
        invariant
            k <= p.len(),
            i + p.len() <= s.len(),
            forall|j: int| 0 <= j < k ==> s@[i + j] == p@[j],
        decreases p.len() - k,
    {
        if s[i + k] != p[k] {
            assert(s@.subrange(i as int, i + p.len())[k as int] != p@[k as int]);
            return false;
        }
        k = k + 1;
    }
    assert(s@.subrange(i as int, i + p.len()) =~= p@);
    true
}

pub fn starts_with_v(s: &Vec<char>, p: &Vec<char>) -> (r: bool)
    ensures
        r == starts_with(s@, p@),
{
    let r = matches_at(s, p, 0);
    assert(s@.take(p@.len() as int) =~= s@.subrange(0, p@.len() as int)) by {
        if p@.len() <= s@.len() {
        }
    };
    r
}

pub fn ends_with_v(s: &Vec<char>, p: &Vec<char>) -> (r: bool)
    ensures
        r == ends_with(s@, p@),
{
    if p.len() > s.len() {
        return false;
    }
    let r = matches_at(s, p, s.len() - p.len());
    assert(s@.skip(s@.len() - p@.len()) =~= s@.subrange(s@.len() - p@.len(), s@.len() as int));
    r
}

/// `str::find` for a pattern.
pub fn find(s: &Vec<char>, p: &Vec<char>) -> (r: Option<usize>)
    ensures
        match r {
            Some(i) => find_first(s@, p@) == Some(i as int) && occurs_at(s@, p@, i as int),
            None => find_first(s@, p@) is None && !contains(s@, p@),
        },
{
    let mut i: usize = 0;
    loop
        invariant
            i <= s.len(),
            forall|j: int| 0 <= j < i ==> !occurs_at(s@, p@, j),
        decreases s.len() - i,
    {
        if matches_at(s, p, i) {
            proof {
                lemma_find_first_is(s@, p@, i as int);
            }
            return Some(i);
        }
        if i == s.len() {
            assert(!contains(s@, p@));
            proof {
                reveal(find_first);
            }
            return None;
        }
        i = i + 1;
    }
}

/// `str::rfind` for a pattern.
pub fn rfind(s: &Vec<char>, p: &Vec<char>) -> (r: Option<usize>)
    ensures
        match r {
            Some(i) => find_last(s@, p@) == Some(i as int) && occurs_at(s@, p@, i as int),
            None => find_last(s@, p@) is None && !contains(s@, p@),
        },
{
    let mut i: usize = s.len();
    loop
        invariant
            i <= s.len(),
            forall|j: int| i < j ==> !occurs_at(s@, p@, j),
        decreases i,
    {
        if matches_at(s, p, i) {
            proof {
                lemma_find_last_is(s@, p@, i as int);
            }
            return Some(i);
        }
        if i == 0 {
            assert(!contains(s@, p@));
            proof {
                reveal(find_last);
            }
            return None;
        }
        i = i - 1;
    }
}

/// `str::contains` for a pattern.
pub fn contains_v(s: &Vec<char>, p: &Vec<char>) -> (r: bool)
    ensures
        r == contains(s@, p@),
{
    match find(s, p) {
        Some(_) => true,
        None => false,
    }
}

/// Index of the first occurrence of character `c`.
pub fn find_char(s: &Vec<char>, c: char) -> (r: Option<usize>)
    ensures
        match r {
            Some(i) => i < s@.len() && s@[i as int] == c && forall|j: int| 0 <= j < i ==> s@[j]
                != c,
            None => !has_char(s@, c),
        },
{
    let mut i: usize = 0;
    while i < s.len()
        invariant
            i <= s.len(),
            forall|j: int| 0 <= j < i ==> s@[j] != c,
        decreases s.len() - i,
    {
        if s[i] == c {
            return Some(i);
        }
        i = i + 1;
    }
    None
}

pub fn has_char_v(s: &Vec<char>, c: char) -> (r: bool)
    ensures
        r == has_char(s@, c),
{
    match find_char(s, c) {
        Some(_) => true,
        None => false,
    }
}

// ---------------------------------------------------------------------------
// Trimming
// ---------------------------------------------------------------------------

/// Number of leading characters of `s` that satisfy `p`.
pub open spec fn lead_len(s: Seq<char>, p: spec_fn(char) -> bool) -> nat
    decreases s.len(),
{
    if s.len() > 0 && p(s[0]) {
        1 + lead_len(s.drop_first(), p)
    } else {
        0
    }
}

/// Number of trailing characters of `s` that satisfy `p`.
pub open spec fn trail_len(s: Seq<char>, p: spec_fn(char) -> bool) -> nat
    decreases s.len(),
{
    if s.len() > 0 && p(s.last()) {
        1 + trail_len(s.drop_last(), p)
    } else {
        0
    }
}

pub proof fn lemma_lead_len(s: Seq<char>, p: spec_fn(char) -> bool, k: int)
    requires
        0 <= k <= s.len(),
        forall|i: int| 0 <= i < k ==> p(s[i]),
        k == s.len() || !p(s[k]),
    ensures
        lead_len(s, p) == k,
    decreases k,
{
    if k > 0 {
        lemma_lead_len(s.drop_first(), p, k - 1);
    }
}

pub proof fn lemma_trail_len(s: Seq<char>, p: spec_fn(char) -> bool, k: int)
    requires
        0 <= k <= s.len(),
        forall|i: int| s.len() - k <= i < s.len() ==> p(s[i]),
        k == s.len() || !p(s[s.len() - k - 1]),
    ensures
        trail_len(s, p) == k,
    decreases k,
{
    if k > 0 {
        lemma_trail_len(s.drop_last(), p, k - 1);
    }
}

pub open spec fn ws_pred() -> spec_fn(char) -> bool {
    |c: char| is_ws(c)
}

pub open spec fn char_pred(c: char) -> spec_fn(char) -> bool {
    |x: char| x == c
}

/// `str::trim_start`.
pub open spec fn trim_start(s: Seq<char>) -> Seq<char> {
    s.skip(lead_len(s, ws_pred()) as int)
}

/// `str::trim_end`.
pub open spec fn trim_end(s: Seq<char>) -> Seq<char> {
    s.take(s.len() - trail_len(s, ws_pred()))
}

/// `str::trim`.
pub open spec fn trim(s: Seq<char>) -> Seq<char> {
    trim_end(trim_start(s))
}

/// `str::trim_start_matches(c)` for one character.
pub open spec fn strip_lead(s: Seq<char>, c: char) -> Seq<char> {
    s.skip(lead_len(s, char_pred(c)) as int)
}

/// `str::trim_end_matches(c)` for one character.
pub open spec fn strip_trail(s: Seq<char>, c: char) -> Seq<char> {
    s.take(s.len() - trail_len(s, char_pred(c)))
}

/// `str::trim_matches(c)` for one character.
pub open spec fn strip_both(s: Seq<char>, c: char) -> Seq<char> {
    strip_trail(strip_lead(s, c), c)
}

pub proof fn lemma_lead_len_bound(s: Seq<char>, p: spec_fn(char) -> bool)
    ensures
        lead_len(s, p) <= s.len(),
    decreases s.len(),
{
    if s.len() > 0 && p(s[0]) {
        lemma_lead_len_bound(s.drop_first(), p);
    }
}

pub proof fn lemma_trail_len_bound(s: Seq<char>, p: spec_fn(char) -> bool)
    ensures
        trail_len(s, p) <= s.len(),
    decreases s.len(),
{
    if s.len() > 0 && p(s.last()) {
        lemma_trail_len_bound(s.drop_last(), p);
    }
}

fn count_lead_ws(s: &Vec<char>) -> (k: usize)
    ensures
        k == lead_len(s@, ws_pred()),
        k <= s.len(),
{
    let mut k: usize = 0;
    while k < s.len() && char_is_ws(s[k])
        invariant
            k <= s.len(),
            forall|i: int| 0 <= i < k ==> #[trigger] is_ws(s@[i]),
        decreases s.len() - k,
    {
        k = k + 1;
    }
    proof {
        lemma_lead_len(s@, ws_pred(), k as int);
    }
    k
}

fn count_trail_ws(s: &Vec<char>) -> (k: usize)
    ensures
        k == trail_len(s@, ws_pred()),
        k <= s.len(),
{
    let mut k: usize = 0;
    while k < s.len() && char_is_ws(s[s.len() - k - 1])
        invariant
            k <= s.len(),
            forall|i: int| s.len() - k <= i < s.len() ==> #[trigger] is_ws(s@[i]),
        decreases s.len() - k,
    {
        k = k + 1;
    }
    proof {
        lemma_trail_len(s@, ws_pred(), k as int);
    }
    k
}

fn count_lead_char(s: &Vec<char>, c: char) -> (k: usize)
    ensures
        k == lead_len(s@, char_pred(c)),
        k <= s.len(),
{
    let mut k: usize = 0;
    while k < s.len() && s[k] == c
        invariant
            k <= s.len(),
            forall|i: int| 0 <= i < k ==> s@[i] == c,
        decreases s.len() - k,
    {
        k = k + 1;
    }
    proof {
        lemma_lead_len(s@, char_pred(c), k as int);
    }
    k
}

fn count_trail_char(s: &Vec<char>, c: char) -> (k: usize)
    ensures
        k == trail_len(s@, char_pred(c)),
        k <= s.len(),
{
    let mut k: usize = 0;
    while k < s.len() && s[s.len() - k - 1] == c
        invariant
            k <= s.len(),
            forall|i: int| s.len() - k <= i < s.len() ==> s@[i] == c,
        decreases s.len() - k,
    {
        k = k + 1;
    }
    proof {
        lemma_trail_len(s@, char_pred(c), k as int);
    }
    k
}

pub fn trim_start_v(s: &Vec<char>) -> (r: Vec<char>)
    ensures
        r@ == trim_start(s@),
{
    let k = count_lead_ws(s);
    slice_of(s, k, s.len())
}

pub fn trim_end_v(s: &Vec<char>) -> (r: Vec<char>)
    ensures
        r@ == trim_end(s@),
{
    let k = count_trail_ws(s);
    slice_of(s, 0, s.len() - k)
}

pub fn trim_v(s: &Vec<char>) -> (r: Vec<char>)
    ensures
        r@ == trim(s@),
{
    let t = trim_start_v(s);
    trim_end_v(&t)
}

pub fn strip_lead_v(s: &Vec<char>, c: char) -> (r: Vec<char>)
    ensures
        r@ == strip_lead(s@, c),
{
    let k = count_lead_char(s, c);
    slice_of(s, k, s.len())
}

pub fn strip_trail_v(s: &Vec<char>, c: char) -> (r: Vec<char>)
    ensures
        r@ == strip_trail(s@, c),
{
    let k = count_trail_char(s, c);
    slice_of(s, 0, s.len() - k)
}

pub fn strip_both_v(s: &Vec<char>, c: char) -> (r: Vec<char>)
    ensures
        r@ == strip_both(s@, c),
{
    let t = strip_lead_v(s, c);
    strip_trail_v(&t, c)
}

/// `str::trim` on a `str`, as characters.
pub fn trim_str(s: &str) -> (r: Vec<char>)
    ensures
        r@ == trim(s@),
{
    let v = chars_of(s);
    trim_v(&v)
}

// ---------------------------------------------------------------------------
// Numbers
// ---------------------------------------------------------------------------

/// The decimal digits of `n`, without leading zeros ("0" for zero).
pub open spec fn dec_digits(n: nat) -> Seq<char>
    decreases n,
{
    if n < 10 {
        seq![(('0' as u32) + (n as u32)) as char]
    } else {
        dec_digits(n / 10).push((('0' as u32) + ((n % 10) as u32)) as char)
    }
}

/// `n.to_string()` for an unsigned number.
pub fn decimal(n: u64) -> (r: Vec<char>)
    ensures
        r@ == dec_digits(n as nat),
    decreases n,
{
    if n < 10 {
        let c = ((48 + n) as u8) as char;
        let v = vec![c];
        assert(v@ =~= dec_digits(n as nat));
        v
    } else {
        let mut v = decimal(n / 10);
        let c = ((48 + n % 10) as u8) as char;
        v.push(c);
        v
    }
}

/// `str::to_ascii_uppercase` on characters.
pub open spec fn upper_char(c: char) -> char {
    if 'a' <= c && c <= 'z' {
        ((c as u32) - 32) as char
    } else {
        c
    }
}

pub open spec fn upper(s: Seq<char>) -> Seq<char> {
    s.map_values(|c: char| upper_char(c))
}

pub fn to_upper(v: &Vec<char>) -> (r: Vec<char>)
    ensures
        r@ == upper(v@),
{
    let mut r: Vec<char> = Vec::new();
    let mut i: usize = 0;
    while i < v.len()
        invariant
            i <= v.len(),
            r@ == upper(v@.take(i as int)),
        decreases v.len() - i,
    {
        let c = v[i];
        let u = if 'a' <= c && c <= 'z' {
            ((c as u8) - 32) as char
        } else {
            c
        };
        r.push(u);
        assert(upper(v@.take(i as int)).push(upper_char(v@[i as int])) =~= upper(v@.take(i + 1)));
        i = i + 1;
    }
    assert(v@.take(v.len() as int) =~= v@);
    r
}

// ---------------------------------------------------------------------------
// Debug quoting
// ---------------------------------------------------------------------------

/// A lower-case hex digit.
pub open spec fn hex_char(n: u32) -> char {
    if n < 10 {
        (('0' as u32) + n) as char
    } else {
        (('a' as u32) + n - 10) as char
    }
}

/// How `char::escape_debug` writes a character that is not ASCII: itself
/// when it is printable and not a grapheme extender, else `\u{..}`. Named:
/// stating it takes the Unicode tables.
pub uninterp spec fn escaped_char(c: char) -> Seq<char>;

/// std's `char::escape_debug`, collected, for a character that is not ASCII.
#[verifier::external_body]
fn escape_debug_of(c: char) -> (r: Vec<char>)
    ensures
        r@ == escaped_char(c),
{
    c.escape_debug().collect()
}

/// How `{:?}` writes one character of a string: `\0`, `\t`, `\r`, `\n`,
/// `\\` and `\"` escaped, other ASCII control characters as `\u{..}`,
/// other ASCII characters as they are; a character that is not ASCII as
/// `char::escape_debug` writes it.
pub open spec fn debug_char(c: char) -> Seq<char> {
    if c == '\0' {
        seq!['\\', '0']
    } else if c == '\t' {
        seq!['\\', 't']
    } else if c == '\r' {
        seq!['\\', 'r']
    } else if c == '\n' {
        seq!['\\', 'n']
    } else if c == '\\' {
        seq!['\\', '\\']
    } else if c == '"' {
        seq!['\\', '"']
    } else if (c as u32) < 0x20 || (c as u32) == 0x7f {
        if (c as u32) < 16 {
            seq!['\\', 'u', '{', hex_char(c as u32), '}']
        } else {
            seq!['\\', 'u', '{', hex_char((c as u32) / 16), hex_char((c as u32) % 16), '}']
        }
    } else if (c as u32) >= 0x80 {
        escaped_char(c)
    } else {
        seq![c]
    }
}

pub open spec fn debug_body(s: Seq<char>) -> Seq<char>
    decreases s.len(),
{
    if s.len() == 0 {
        Seq::empty()
    } else {
        debug_body(s.drop_last()) + debug_char(s.last())
    }
}

/// A string as `{:?}` writes it: quoted, special characters escaped.
pub open spec fn debug_str(s: Seq<char>) -> Seq<char> {
    seq!['"'] + debug_body(s) + seq!['"']
}

fn hex_char_v(n: u32) -> (r: char)
    requires
        n < 16,
    ensures
        r == hex_char(n),
{
    if n < 10 {
        char_of(48 + n)
    } else {
        char_of(97 + n - 10)
    }
}

fn char_of(n: u32) -> (r: char)
    requires
        n < 128,
    ensures
        r == n as char,
{
    let b = n as u8;
    b as char
}

fn debug_char_v(c: char) -> (r: Vec<char>)
    ensures
        r@ == debug_char(c),
{
    let u = c as u32;
    let r = if c == '\0' {
        vec!['\\', '0']
    } else if c == '\t' {
        vec!['\\', 't']
    } else if c == '\r' {
        vec!['\\', 'r']
    } else if c == '\n' {
        vec!['\\', 'n']
    } else if c == '\\' {
        vec!['\\', '\\']
    } else if c == '"' {
        vec!['\\', '"']
    } else if u < 0x20 || u == 0x7f {
        if u < 16 {
            vec!['\\', 'u', '{', hex_char_v(u), '}']
        } else {
            vec!['\\', 'u', '{', hex_char_v(u / 16), hex_char_v(u % 16), '}']
        }
    } else if u >= 0x80 {
        escape_debug_of(c)
    } else {
        vec![c]
    };
    assert(r@ =~= debug_char(c));
    r
}

/// `format!("{:?}", s)` for a string.
pub fn debug_quote(s: &Vec<char>) -> (r: Vec<char>)
    ensures
        r@ == debug_str(s@),
{
    let mut body: Vec<char> = Vec::new();
    let mut i: usize = 0;
    while i < s.len()
        invariant
            i <= s.len(),
            body@ == debug_body(s@.take(i as int)),
        decreases s.len() - i,
    {
        let d = debug_char_v(s[i]);
        append(&mut body, &d);
        assert(s@.take(i + 1).drop_last() =~= s@.take(i as int));
        i = i + 1;
    }
    assert(s@.take(s.len() as int) =~= s@);
    let mut r: Vec<char> = Vec::new();
    r.push('"');
    append(&mut r, &body);
    r.push('"');
    assert(r@ =~= debug_str(s@));
    r
}

// ---------------------------------------------------------------------------
// Lines and joining
// ---------------------------------------------------------------------------

/// The views of a sequence of character vectors.
pub open spec fn views(vs: Seq<Vec<char>>) -> Seq<Seq<char>> {
    vs.map_values(|v: Vec<char>| v@)
}

/// `str::split('\n')`: the pieces between newline characters (always at least one).
pub open spec fn split_nl(s: Seq<char>) -> Seq<Seq<char>>
    decreases s.len(),
{
    if s.len() == 0 {
        seq![Seq::<char>::empty()]
    } else {
        let r = split_nl(s.drop_last());
        if s.last() == '\n' {
            r.push(Seq::<char>::empty())
        } else {
            r.update(r.len() - 1, r.last().push(s.last()))
        }
    }
}

pub proof fn lemma_split_nl_len(s: Seq<char>)
    ensures
        split_nl(s).len() >= 1,
    decreases s.len(),
{
    if s.len() > 0 {
        lemma_split_nl_len(s.drop_last());
    }
}

/// `str::split(c)`: the pieces between occurrences of `c` (always at least one).
pub open spec fn split_on(s: Seq<char>, c: char) -> Seq<Seq<char>>
    decreases s.len(),
{
    if s.len() == 0 {
        seq![Seq::<char>::empty()]
    } else {
        let r = split_on(s.drop_last(), c);
        if s.last() == c {
            r.push(Seq::<char>::empty())
        } else {
            r.update(r.len() - 1, r.last().push(s.last()))
        }
    }
}

pub proof fn lemma_split_on_len(s: Seq<char>, c: char)
    ensures
        split_on(s, c).len() >= 1,
    decreases s.len(),
{
    if s.len() > 0 {
        lemma_split_on_len(s.drop_last(), c);
    }
}

/// `str::split(c)`, each piece as characters.
pub fn split_on_v(s: &Vec<char>, c: char) -> (r: Vec<Vec<char>>)
    ensures
        views(r@) == split_on(s@, c),
{
    let mut out: Vec<Vec<char>> = Vec::new();
    let mut cur: Vec<char> = Vec::new();
    let mut i: usize = 0;
    assert(s@.take(0) =~= Seq::<char>::empty());
    while i < s.len()
        invariant
            i <= s.len(),
            split_on(s@.take(i as int), c).len() >= 1,
            views(out@) == split_on(s@.take(i as int), c).drop_last(),
            cur@ == split_on(s@.take(i as int), c).last(),
        decreases s.len() - i,
    {
        let x = s[i];
        let ghost pre = s@.take(i as int);
        let ghost p0 = split_on(pre, c);
        assert(s@.take(i + 1).drop_last() =~= pre);
        if x == c {
            let ghost old_out = views(out@);
            out.push(cur);
            cur = Vec::new();
            proof {
                let p1 = split_on(s@.take(i + 1), c);
                assert(p1 == p0.push(Seq::<char>::empty()));
                assert(views(out@) =~= old_out.push(p0.last()));
                assert(p1.drop_last() =~= p0);
                assert(p0 =~= p0.drop_last().push(p0.last()));
            }
        } else {
            cur.push(x);
            proof {
                let p1 = split_on(s@.take(i + 1), c);
                assert(p1 == p0.update(p0.len() - 1, p0.last().push(x)));
                assert(p1.drop_last() =~= p0.drop_last());
            }
        }
        i = i + 1;
    }
    assert(s@.take(s.len() as int) =~= s@);
    let ghost before = views(out@);
    out.push(cur);
    proof {
        let p = split_on(s@, c);
        assert(views(out@) =~= before.push(p.last()));
        assert(p =~= p.drop_last().push(p.last()));
    }
    out
}

/// Drops one trailing carriage return.
pub open spec fn strip_cr(t: Seq<char>) -> Seq<char> {
    if t.len() > 0 && t.last() == '\r' {
        t.drop_last()
    } else {
        t
    }
}

/// `str::lines`: newline-terminated pieces lose the `\n` and then one `\r`;
/// a final empty piece is not a line.
pub open spec fn lines(s: Seq<char>) -> Seq<Seq<char>> {
    let p = split_nl(s);
    let done = p.drop_last().map_values(|t: Seq<char>| strip_cr(t));
    if p.last().len() == 0 {
        done
    } else {
        done.push(p.last())
    }
}

/// `[..].join(sep)`.
pub open spec fn join(ps: Seq<Seq<char>>, sep: Seq<char>) -> Seq<char>
    decreases ps.len(),
{
    if ps.len() == 0 {
        Seq::<char>::empty()
    } else if ps.len() == 1 {
        ps[0]
    } else {
        join(ps.drop_last(), sep) + sep + ps.last()
    }
}

fn strip_cr_v(t: Vec<char>) -> (r: Vec<char>)
    ensures
        r@ == strip_cr(t@),
{
    let ghost t0 = t@;
    let mut t = t;
    if t.len() > 0 && t[t.len() - 1] == '\r' {
        t.pop();
        assert(t@ =~= strip_cr(t0));
    }
    t
}

/// `str::lines`, each line as characters.
pub fn lines_v(s: &Vec<char>) -> (r: Vec<Vec<char>>)
    ensures
        views(r@) == lines(s@),
{
    let mut out: Vec<Vec<char>> = Vec::new();
    let mut cur: Vec<char> = Vec::new();
    let mut i: usize = 0;
    proof {
        assert(s@.take(0) =~= Seq::<char>::empty());
    }
    while i < s.len()
        invariant
            i <= s.len(),
            split_nl(s@.take(i as int)).len() >= 1,
            views(out@) == split_nl(s@.take(i as int)).drop_last().map_values(
                |t: Seq<char>| strip_cr(t),
            ),
            cur@ == split_nl(s@.take(i as int)).last(),
        decreases s.len() - i,
    {
        let c = s[i];
        let ghost pre = s@.take(i as int);
        let ghost p0 = split_nl(pre);
        assert(s@.take(i + 1).drop_last() =~= pre);
        if c == '\n' {
            let ghost old_out = out@;
            let piece = strip_cr_v(cur);
            out.push(piece);
            assert(views(out@) =~= views(old_out).push(strip_cr(p0.last())));
            cur = Vec::new();
            proof {
                let p1 = split_nl(s@.take(i + 1));
                assert(p1 == p0.push(Seq::<char>::empty()));
                assert(p1.drop_last() =~= p0);
                assert(p0 =~= p0.drop_last().push(p0.last()));
                assert(p0.map_values(|t: Seq<char>| strip_cr(t)) =~= p0.drop_last().map_values(
                    |t: Seq<char>| strip_cr(t),
                ).push(strip_cr(p0.last())));
                assert(views(out@) =~= p1.drop_last().map_values(|t: Seq<char>| strip_cr(t)));
            }
        } else {
            cur.push(c);
            proof {
                let p1 = split_nl(s@.take(i + 1));
                assert(p1 == p0.update(p0.len() - 1, p0.last().push(c)));
                assert(p1.drop_last() =~= p0.drop_last());
            }
        }
        i = i + 1;
    }
    assert(s@.take(s.len() as int) =~= s@);
    if cur.len() > 0 {
        out.push(cur);
        proof {
            assert(views(out@) =~= lines(s@));
        }
    }
    out
}

/// `[..].join(sep)` over character vectors.
pub fn join_v(ps: &Vec<Vec<char>>, sep: &Vec<char>) -> (r: Vec<char>)
    ensures
        r@ == join(views(ps@), sep@),
{
    let mut r: Vec<char> = Vec::new();
    let mut i: usize = 0;
    while i < ps.len()
        invariant
            i <= ps.len(),
            r@ == join(views(ps@).take(i as int), sep@),
        decreases ps.len() - i,
    {
        let ghost t = views(ps@).take(i + 1);
        assert(t.drop_last() =~= views(ps@).take(i as int));
        if i > 0 {
            append(&mut r, sep);
        } else {
            assert(views(ps@).take(0) =~= Seq::<Seq<char>>::empty());
        }
        append(&mut r, &ps[i]);
        i = i + 1;
    }
    assert(views(ps@).take(ps.len() as int) =~= views(ps@));
    r
}

/// `str::replace`: every occurrence of `pat` (not empty), left to right
/// and not overlapping, replaced by `rep`.
pub open spec fn replace_all(s: Seq<char>, pat: Seq<char>, rep: Seq<char>) -> Seq<char>
    decreases s.len(),
{
    if pat.len() == 0 || s.len() < pat.len() {
        s
    } else if s.take(pat.len() as int) == pat {
        rep + replace_all(s.skip(pat.len() as int), pat, rep)
    } else {
        seq![s[0]] + replace_all(s.skip(1), pat, rep)
    }
}

proof fn lemma_replace_step(s: Seq<char>, pat: Seq<char>, rep: Seq<char>, i: int)
    requires
        pat.len() > 0,
        0 <= i < s.len(),
    ensures
        occurs_at(s, pat, i) ==> replace_all(s.skip(i), pat, rep) == rep + replace_all(
            s.skip(i + pat.len()),
            pat,
            rep,
        ),
        !occurs_at(s, pat, i) ==> replace_all(s.skip(i), pat, rep) == seq![s[i]] + replace_all(
            s.skip(i + 1),
            pat,
            rep,
        ),
{
    let t = s.skip(i);
    assert(t.skip(1) =~= s.skip(i + 1));
    if t.len() >= pat.len() {
        assert(t.take(pat.len() as int) =~= s.subrange(i, i + pat.len()));
        assert(t.skip(pat.len() as int) =~= s.skip(i + pat.len()));
    } else {
        assert(!occurs_at(s, pat, i));
        assert(s.skip(i + 1).len() < pat.len());
        assert(t =~= seq![s[i]] + s.skip(i + 1));
    }
}

/// Replaces every occurrence of `pat` (not empty) in `s` by `rep`.
pub fn replace(s: &str, pat: &str, rep: &str) -> (r: String)
    requires
        pat@.len() > 0,
    ensures
        r@ == replace_all(s@, pat@, rep@),
{
    let sc = chars_of(s);
    let pc = chars_of(pat);
    let rc = chars_of(rep);
    let mut out: Vec<char> = Vec::new();
    let mut i: usize = 0;
    assert(sc@.skip(0) =~= sc@);
    while i < sc.len()
        invariant
            i <= sc.len(),
            pc@.len() > 0,
            out@ + replace_all(sc@.skip(i as int), pc@, rc@) == replace_all(sc@, pc@, rc@),
        decreases sc.len() - i,
    {
        proof {
            lemma_replace_step(sc@, pc@, rc@, i as int);
        }
        if matches_at(&sc, &pc, i) {
            let ghost before = out@;
            append(&mut out, &rc);
            assert(before + (rc@ + replace_all(sc@.skip(i + pc@.len()), pc@, rc@)) =~= out@
                + replace_all(sc@.skip(i + pc@.len()), pc@, rc@));
            i = i + pc.len();
        } else {
            let ghost before = out@;
            out.push(sc[i]);
            assert(before + (seq![sc@[i as int]] + replace_all(sc@.skip(i + 1), pc@, rc@)) =~= out@
                + replace_all(sc@.skip(i + 1), pc@, rc@));
            i = i + 1;
        }
    }
    assert(sc@.skip(sc.len() as int) =~= Seq::<char>::empty());
    assert(out@ + Seq::<char>::empty() =~= out@);
    to_string(&out)
}

// ---------------------------------------------------------------------------
// Lines written and read back
// ---------------------------------------------------------------------------

/// `s` holds no newline.
pub open spec fn nl_free(s: Seq<char>) -> bool {
    forall|i: int| 0 <= i < s.len() ==> s[i] != '\n'
}

pub proof fn lemma_lead_len_props(s: Seq<char>, p: spec_fn(char) -> bool)
    ensures
        lead_len(s, p) <= s.len(),
        forall|i: int| 0 <= i < lead_len(s, p) ==> p(s[i]),
        lead_len(s, p) == s.len() || !p(s[lead_len(s, p) as int]),
    decreases s.len(),
{
    if s.len() > 0 && p(s[0]) {
        let d = s.drop_first();
        lemma_lead_len_props(d, p);
        assert forall|i: int| 0 <= i < lead_len(s, p) implies p(s[i]) by {
            if i > 0 {
                assert(s[i] == d[i - 1]);
            }
        }
        if lead_len(s, p) < s.len() {
            assert(s[lead_len(s, p) as int] == d[lead_len(d, p) as int]);
        }
    }
}

pub proof fn lemma_trail_len_props(s: Seq<char>, p: spec_fn(char) -> bool)
    ensures
        trail_len(s, p) <= s.len(),
        forall|i: int| s.len() - trail_len(s, p) <= i < s.len() ==> p(s[i]),
        trail_len(s, p) == s.len() || !p(s[s.len() - trail_len(s, p) - 1]),
    decreases s.len(),
{
    if s.len() > 0 && p(s.last()) {
        let d = s.drop_last();
        lemma_trail_len_props(d, p);
        assert forall|i: int| s.len() - trail_len(s, p) <= i < s.len() implies p(s[i]) by {
            if i < s.len() - 1 {
                assert(s[i] == d[i]);
            }
        }
        if trail_len(s, p) < s.len() {
            assert(s[s.len() - trail_len(s, p) - 1] == d[d.len() - trail_len(d, p) - 1]);
        }
    }
}

/// Dropping white space at the end does not change what `trim` gives.
pub proof fn lemma_trim_drop_trailing_ws(s: Seq<char>, k: int)
    requires
        0 <= k <= s.len(),
        forall|i: int| s.len() - k <= i < s.len() ==> is_ws(s[i]),
    ensures
        trim(s.take(s.len() - k)) == trim(s),
{
    let n = s.len() as int;
    let t = s.take(n - k);
    let w = ws_pred();
    lemma_lead_len_props(s, w);
    let la = lead_len(s, w) as int;
    if la >= n - k {
        assert forall|i: int| 0 <= i < n implies w(s[i]) by {
            if i >= n - k {
                assert(is_ws(s[i]));
            }
        }
        lemma_lead_len(s, w, n);
        lemma_lead_len(t, w, n - k);
        assert(trim_start(s) =~= Seq::<char>::empty());
        assert(trim_start(t) =~= Seq::<char>::empty());
        lemma_trail_len_bound(Seq::<char>::empty(), w);
    } else {
        lemma_lead_len(t, w, la);
        let u = s.skip(la);
        let v = t.skip(la);
        assert(trim_start(s) == u);
        assert(trim_start(t) == v);
        assert(v =~= u.take(u.len() - k));
        lemma_trail_len_props(v, w);
        let tv = trail_len(v, w) as int;
        assert(v[0] == s[la]);
        assert(tv < v.len());
        assert forall|i: int| u.len() - (tv + k) <= i < u.len() implies w(u[i]) by {
            if i < u.len() - k {
                assert(u[i] == v[i]);
            } else {
                assert(u[i] == s[la + i]);
            }
        }
        assert(u[u.len() - (tv + k) - 1] == v[v.len() - tv - 1]);
        lemma_trail_len(u, w, tv + k);
        assert(trim_end(u) =~= trim_end(v));
    }
}

/// A carriage return dropped at the end does not change what `trim` gives.
pub proof fn lemma_trim_strip_cr(t: Seq<char>)
    ensures
        trim(strip_cr(t)) == trim(t),
{
    if t.len() > 0 && t.last() == '\r' {
        assert(is_ws('\r'));
        lemma_trim_drop_trailing_ws(t, 1);
        assert(t.take(t.len() - 1) =~= t.drop_last());
    }
}

proof fn lemma_split_nl_single(t: Seq<char>)
    requires
        nl_free(t),
    ensures
        split_nl(t) == seq![t],
    decreases t.len(),
{
    if t.len() > 0 {
        let d = t.drop_last();
        assert(nl_free(d)) by {
            assert forall|i: int| 0 <= i < d.len() implies d[i] != '\n' by {
                assert(d[i] == t[i]);
            }
        }
        lemma_split_nl_single(d);
        assert(t.last() == t[t.len() - 1]);
        assert(t.last() != '\n');
        assert(d.push(t.last()) =~= t);
        assert(split_nl(t) =~= seq![t]);
    } else {
        assert(t =~= Seq::<char>::empty());
    }
}

/// Splitting text that has a newline after `a` splits `a` and the rest apart.
pub proof fn lemma_split_nl_concat(a: Seq<char>, b: Seq<char>)
    ensures
        split_nl(a.push('\n') + b) == split_nl(a) + split_nl(b),
    decreases b.len(),
{
    if b.len() == 0 {
        assert(a.push('\n') + b =~= a.push('\n'));
        assert(a.push('\n').drop_last() =~= a);
        assert(split_nl(a) + split_nl(b) =~= split_nl(a).push(Seq::<char>::empty()));
    } else {
        let d = b.drop_last();
        lemma_split_nl_concat(a, d);
        let s = a.push('\n') + b;
        assert(s.drop_last() =~= a.push('\n') + d);
        assert(s.last() == b.last());
        lemma_split_nl_len(a);
        lemma_split_nl_len(d);
        if b.last() == '\n' {
            assert(split_nl(s) =~= split_nl(a) + split_nl(b));
        } else {
            let r = split_nl(a) + split_nl(d);
            assert(split_nl(s) == r.update(r.len() - 1, r.last().push(s.last())));
            assert(split_nl(s) =~= split_nl(a) + split_nl(b));
        }
    }
}

pub proof fn lemma_join_concat(x: Seq<Seq<char>>, y: Seq<Seq<char>>, sep: Seq<char>)
    requires
        x.len() > 0,
        y.len() > 0,
    ensures
        join(x + y, sep) == join(x, sep) + sep + join(y, sep),
    decreases y.len(),
{
    if y.len() == 1 {
        assert((x + y).drop_last() =~= x);
        assert((x + y).last() == y[0]);
    } else {
        let d = y.drop_last();
        lemma_join_concat(x, d, sep);
        assert((x + y).drop_last() =~= x + d);
        assert((x + y).last() == y.last());
        assert(join(x + y, sep) =~= join(x, sep) + sep + join(y, sep));
    }
}

proof fn lemma_split_join(x: Seq<Seq<char>>)
    requires
        x.len() > 0,
        forall|i: int| 0 <= i < x.len() ==> nl_free(#[trigger] x[i]),
    ensures
        split_nl(join(x, seq!['\n'])) == x,
    decreases x.len(),
{
    if x.len() == 1 {
        lemma_split_nl_single(x[0]);
        assert(seq![x[0]] =~= x);
    } else {
        let d = x.drop_last();
        lemma_split_join(d);
        assert(x.last() == x[x.len() - 1]);
        lemma_split_nl_single(x.last());
        assert(join(d, seq!['\n']) + seq!['\n'] + x.last() =~= join(d, seq!['\n']).push('\n')
            + x.last());
        lemma_split_nl_concat(join(d, seq!['\n']), x.last());
        assert(d + seq![x.last()] =~= x);
    }
}

/// Newline-free pieces joined by newlines, with a final newline, read back
/// as lines: the first pieces come back (without a final carriage return),
/// followed by the lines of the rest.
pub proof fn lemma_lines_join(x: Seq<Seq<char>>, y: Seq<Seq<char>>)
    requires
        x.len() > 0,
        forall|i: int| 0 <= i < x.len() ==> nl_free(#[trigger] x[i]),
    ensures
        lines(join(x + y, seq!['\n']).push('\n')) == x.map_values(|t: Seq<char>| strip_cr(t)) + (if y.len()
            == 0 {
            Seq::<Seq<char>>::empty()
        } else {
            lines(join(y, seq!['\n']).push('\n'))
        }),
{
    lemma_split_join(x);
    let jx = join(x, seq!['\n']);
    if y.len() == 0 {
        assert(x + y =~= x);
        let s = jx.push('\n');
        assert(s.drop_last() =~= jx);
        assert(split_nl(s) == x.push(Seq::<char>::empty()));
        assert(split_nl(s).drop_last() =~= x);
        assert(x.map_values(|t: Seq<char>| strip_cr(t)) + Seq::<Seq<char>>::empty() =~= x.map_values(
            |t: Seq<char>| strip_cr(t),
        ));
    } else {
        lemma_join_concat(x, y, seq!['\n']);
        let jy = join(y, seq!['\n']);
        let s = join(x + y, seq!['\n']).push('\n');
        assert(s =~= jx.push('\n') + jy.push('\n'));
        lemma_split_nl_concat(jx, jy.push('\n'));
        let t = split_nl(jy.push('\n'));
        assert(jy.push('\n').drop_last() =~= jy);
        assert(t == split_nl(jy).push(Seq::<char>::empty()));
        assert(split_nl(s) == x + t);
        assert((x + t).last() == t.last());
        assert((x + t).drop_last() =~= x + t.drop_last());
        assert((x + t.drop_last()).map_values(|c: Seq<char>| strip_cr(c)) =~= x.map_values(
            |c: Seq<char>| strip_cr(c),
        ) + t.drop_last().map_values(|c: Seq<char>| strip_cr(c)));
    }
}

proof fn lemma_split_nl_pieces(s: Seq<char>)
    ensures
        forall|i: int| 0 <= i < split_nl(s).len() ==> nl_free(#[trigger] split_nl(s)[i]),
    decreases s.len(),
{
    if s.len() > 0 {
        let d = s.drop_last();
        lemma_split_nl_pieces(d);
        lemma_split_nl_len(d);
        let r = split_nl(d);
        if s.last() != '\n' {
            let n = split_nl(s);
            assert forall|i: int| 0 <= i < n.len() implies nl_free(#[trigger] n[i]) by {
                if i == r.len() - 1 {
                    assert(n[i] == r.last().push(s.last()));
                    assert(nl_free(r[r.len() - 1]));
                } else {
                    assert(n[i] == r[i]);
                }
            }
        } else {
            let n = split_nl(s);
            assert forall|i: int| 0 <= i < n.len() implies nl_free(#[trigger] n[i]) by {
                if i < r.len() {
                    assert(n[i] == r[i]);
                }
            }
        }
    }
}

/// No line holds a newline.
pub proof fn lemma_lines_nl_free(s: Seq<char>)
    ensures
        forall|i: int| 0 <= i < lines(s).len() ==> nl_free(#[trigger] lines(s)[i]),
{
    lemma_split_nl_pieces(s);
    lemma_split_nl_len(s);
    let p = split_nl(s);
    let l = lines(s);
    assert forall|i: int| 0 <= i < l.len() implies nl_free(#[trigger] l[i]) by {
        if i < p.len() - 1 {
            assert(l[i] == strip_cr(p[i]));
            assert(nl_free(p[i]));
        } else {
            assert(l[i] == p.last());
            assert(nl_free(p[p.len() - 1]));
        }
    }
}

/// No occurrence of `p` starts inside `a` when `b` starts with a character
/// that `p` has only at its start (or not at all).
pub proof fn lemma_no_occ_before(a: Seq<char>, b: Seq<char>, p: Seq<char>)
    requires
        p.len() > 0,
        !contains(a, p),
        b.len() > 0,
        forall|m: int| 1 <= m < p.len() ==> p[m] != b[0],
    ensures
        forall|j: int| 0 <= j < a.len() ==> !occurs_at(a + b, p, j),
{
    assert forall|j: int| 0 <= j < a.len() implies !occurs_at(a + b, p, j) by {
        if occurs_at(a + b, p, j) {
            if j + p.len() <= a.len() {
                assert((a + b).subrange(j, j + p.len()) =~= a.subrange(j, j + p.len()));
                assert(occurs_at(a, p, j));
            } else {
                let m = a.len() - j;
                assert((a + b).subrange(j, j + p.len())[m] == (a + b)[a.len() as int]);
                assert((a + b)[a.len() as int] == b[0]);
            }
        }
    }
}

/// Two parts without `p` make a whole without `p` when `b` starts with a
/// character that `p` has only at its start (or not at all).
pub proof fn lemma_no_occ_concat_start(a: Seq<char>, b: Seq<char>, p: Seq<char>)
    requires
        p.len() > 0,
        !contains(a, p),
        !contains(b, p),
        b.len() > 0,
        forall|m: int| 1 <= m < p.len() ==> p[m] != b[0],
    ensures
        !contains(a + b, p),
{
    lemma_no_occ_before(a, b, p);
    assert forall|j: int| !occurs_at(a + b, p, j) by {
        if j >= a.len() && occurs_at(a + b, p, j) {
            assert((a + b).subrange(j, j + p.len()) =~= b.subrange(j - a.len(), j - a.len() + p.len()));
            assert(occurs_at(b, p, j - a.len()));
        }
    }
}

/// Two parts without `p` make a whole without `p` when `a` ends with a
/// character that `p` has only at its end (or not at all).
pub proof fn lemma_no_occ_concat_end(a: Seq<char>, b: Seq<char>, p: Seq<char>)
    requires
        p.len() > 0,
        !contains(a, p),
        !contains(b, p),
        a.len() > 0,
        forall|m: int| 0 <= m < p.len() - 1 ==> p[m] != a.last(),
    ensures
        !contains(a + b, p),
{
    assert forall|j: int| !occurs_at(a + b, p, j) by {
        if occurs_at(a + b, p, j) {
            if j + p.len() <= a.len() {
                assert((a + b).subrange(j, j + p.len()) =~= a.subrange(j, j + p.len()));
                assert(occurs_at(a, p, j));
            } else if j >= a.len() {
                assert((a + b).subrange(j, j + p.len()) =~= b.subrange(j - a.len(), j - a.len() + p.len()));
                assert(occurs_at(b, p, j - a.len()));
            } else {
                let m = a.len() - 1 - j;
                assert((a + b).subrange(j, j + p.len())[m] == (a + b)[a.len() - 1]);
                assert((a + b)[a.len() - 1] == a.last());
            }
        }
    }
}

} // verus!
