//! Three-way comparison results and lexicographic ordering of sequences.

use vstd::prelude::*;

verus! {

/// The result of a three-way comparison.
#[derive(Debug, Clone, Copy, PartialEq, Eq, Structural)]
pub enum Order3 {
    Less,
    Equal,
    Greater,
}

/// The comparison read the other way round.
pub open spec fn flip(o: Order3) -> Order3 {
    match o {
        Order3::Less => Order3::Greater,
        Order3::Equal => Order3::Equal,
        Order3::Greater => Order3::Less,
    }
}

/// "Not greater".
pub open spec fn is_le(o: Order3) -> bool {
    o != Order3::Greater
}

/// `f` is a total order whose `Equal` is equality.
pub open spec fn total_order<T>(f: spec_fn(T, T) -> Order3) -> bool {
    &&& forall|x: T| #[trigger] f(x, x) == Order3::Equal
    &&& forall|x: T, y: T| #[trigger] f(x, y) == Order3::Equal ==> x == y
    &&& forall|x: T, y: T| #[trigger] f(x, y) == flip(f(y, x))
    &&& forall|x: T, y: T, z: T|
        is_le(#[trigger] f(x, y)) && is_le(#[trigger] f(y, z)) ==> is_le(f(x, z))
}

/// Lexicographic order: the first differing element decides; a proper prefix is smaller.
pub open spec fn lex<T>(a: Seq<T>, b: Seq<T>, f: spec_fn(T, T) -> Order3) -> Order3
    decreases a.len(),
{
    if a.len() == 0 {
        if b.len() == 0 {
            Order3::Equal
        } else {
            Order3::Less
        }
    } else if b.len() == 0 {
        Order3::Greater
    } else if f(a[0], b[0]) != Order3::Equal {
        f(a[0], b[0])
    } else {
        lex(a.drop_first(), b.drop_first(), f)
    }
}

/// Order of characters by code point (which is also the order of their UTF-8 bytes).
pub open spec fn char_order(x: char, y: char) -> Order3 {
    if x < y {
        Order3::Less
    } else if x == y {
        Order3::Equal
    } else {
        Order3::Greater
    }
}

/// Order of integers.
pub open spec fn int_order(x: int, y: int) -> Order3 {
    if x < y {
        Order3::Less
    } else if x == y {
        Order3::Equal
    } else {
        Order3::Greater
    }
}

/// `str::cmp` on the characters of two strings.
pub open spec fn text_order(a: Seq<char>, b: Seq<char>) -> Order3 {
    lex(a, b, char_order_fn())
}

pub open spec fn char_order_fn() -> spec_fn(char, char) -> Order3 {
    |x: char, y: char| char_order(x, y)
}

pub proof fn lemma_char_order_total()
    ensures
        total_order(char_order_fn()),
{
}

pub proof fn lemma_lex_refl<T>(a: Seq<T>, f: spec_fn(T, T) -> Order3)
    requires
        total_order(f),
    ensures
        lex(a, a, f) == Order3::Equal,
    decreases a.len(),
{
    if a.len() > 0 {
        assert(f(a[0], a[0]) == Order3::Equal);
        lemma_lex_refl(a.drop_first(), f);
    }
}

pub proof fn lemma_lex_eq<T>(a: Seq<T>, b: Seq<T>, f: spec_fn(T, T) -> Order3)
    requires
        total_order(f),
        lex(a, b, f) == Order3::Equal,
    ensures
        a == b,
    decreases a.len(),
{
    if a.len() > 0 && b.len() > 0 {
        assert(f(a[0], b[0]) == Order3::Equal);
        lemma_lex_eq(a.drop_first(), b.drop_first(), f);
        assert(a =~= seq![a[0]] + a.drop_first());
        assert(b =~= seq![b[0]] + b.drop_first());
    }
}

pub proof fn lemma_lex_flip<T>(a: Seq<T>, b: Seq<T>, f: spec_fn(T, T) -> Order3)
    requires
        total_order(f),
    ensures
        lex(a, b, f) == flip(lex(b, a, f)),
    decreases a.len(),
{
    if a.len() > 0 && b.len() > 0 {
        assert(f(a[0], b[0]) == flip(f(b[0], a[0])));
        lemma_lex_flip(a.drop_first(), b.drop_first(), f);
    }
}

pub proof fn lemma_lex_trans<T>(a: Seq<T>, b: Seq<T>, c: Seq<T>, f: spec_fn(T, T) -> Order3)
    requires
        total_order(f),
        is_le(lex(a, b, f)),
        is_le(lex(b, c, f)),
    ensures
        is_le(lex(a, c, f)),
    decreases a.len(),
{
    if a.len() > 0 && b.len() > 0 && c.len() > 0 {
        let fab = f(a[0], b[0]);
        let fbc = f(b[0], c[0]);
        assert(is_le(fab));
        assert(is_le(fbc));
        assert(is_le(f(a[0], c[0])));
        if fab == Order3::Equal && fbc == Order3::Equal {
            assert(a[0] == b[0]);
            assert(b[0] == c[0]);
            assert(f(a[0], c[0]) == Order3::Equal);
            lemma_lex_trans(a.drop_first(), b.drop_first(), c.drop_first(), f);
        } else if f(a[0], c[0]) == Order3::Equal {
            assert(a[0] == c[0]);
            assert(f(b[0], a[0]) == flip(fab));
            if fab == Order3::Less {
                assert(is_le(f(b[0], c[0])));
                assert(f(b[0], a[0]) == Order3::Greater);
            } else {
                assert(fab == Order3::Equal);
                assert(a[0] == b[0]);
                assert(fbc == Order3::Less);
                assert(f(a[0], c[0]) == Order3::Less);
            }
        }
    }
}

pub proof fn lemma_lex_total<T>(f: spec_fn(T, T) -> Order3)
    requires
        total_order(f),
    ensures
        total_order(|a: Seq<T>, b: Seq<T>| lex(a, b, f)),
{
    let g = |a: Seq<T>, b: Seq<T>| lex(a, b, f);
    assert forall|x: Seq<T>| #[trigger] g(x, x) == Order3::Equal by {
        lemma_lex_refl(x, f);
    }
    assert forall|x: Seq<T>, y: Seq<T>| #[trigger] g(x, y) == Order3::Equal implies x == y by {
        lemma_lex_eq(x, y, f);
    }
    assert forall|x: Seq<T>, y: Seq<T>| #[trigger] g(x, y) == flip(g(y, x)) by {
        lemma_lex_flip(x, y, f);
    }
    assert forall|x: Seq<T>, y: Seq<T>, z: Seq<T>|
        is_le(#[trigger] g(x, y)) && is_le(#[trigger] g(y, z)) implies is_le(g(x, z)) by {
        lemma_lex_trans(x, y, z, f);
    }
}

/// Equal prefixes do not decide a lexicographic comparison.
pub proof fn lemma_lex_skip<T>(a: Seq<T>, b: Seq<T>, f: spec_fn(T, T) -> Order3, i: int)
    requires
        total_order(f),
        0 <= i <= a.len(),
        i <= b.len(),
        forall|j: int| 0 <= j < i ==> a[j] == b[j],
    ensures
        lex(a, b, f) == lex(a.skip(i), b.skip(i), f),
    decreases i,
{
    if i > 0 {
        assert(f(a[0], b[0]) == Order3::Equal) by {
            assert(a[0] == b[0]);
        }
        lemma_lex_skip(a.drop_first(), b.drop_first(), f, i - 1);
        assert(a.drop_first().skip(i - 1) =~= a.skip(i));
        assert(b.drop_first().skip(i - 1) =~= b.skip(i));
    } else {
        assert(a.skip(0) =~= a);
        assert(b.skip(0) =~= b);
    }
}

/// Compares the characters of two vectors as `str::cmp` does.
pub fn text_compare(a: &Vec<char>, b: &Vec<char>) -> (r: Order3)
    ensures
        r == text_order(a@, b@),
{
    let ghost f = char_order_fn();
    proof {
        lemma_char_order_total();
    }
    let mut i: usize = 0;
    while i < a.len() && i < b.len()
        invariant
            i <= a.len(),
            i <= b.len(),
            f == char_order_fn(),
            total_order(f),
            forall|j: int| 0 <= j < i ==> a@[j] == b@[j],
        decreases a.len() - i,
    {
        if a[i] != b[i] {
            proof {
                lemma_lex_skip(a@, b@, f, i as int);
                assert(a@.skip(i as int)[0] == a@[i as int]);
                assert(b@.skip(i as int)[0] == b@[i as int]);
                assert(f(a@[i as int], b@[i as int]) == char_order(a@[i as int], b@[i as int]));
                assert(lex(a@.skip(i as int), b@.skip(i as int), f) == f(
                    a@[i as int],
                    b@[i as int],
                ));
            }
            if a[i] < b[i] {
                return Order3::Less;
            } else {
                return Order3::Greater;
            }
        }
        i = i + 1;
    }
    proof {
        lemma_lex_skip(a@, b@, f, i as int);
    }
    if a.len() == b.len() {
        Order3::Equal
    } else if i == a.len() {
        Order3::Less
    } else {
        Order3::Greater
    }
}

} // verus!
