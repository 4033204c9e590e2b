//! Stable sorting by a key with a total preorder: the order in which lists
//! are shown (log files newest first, statistics by use, environment rows
//! by name).

use vstd::prelude::*;

use crate::order::{
    char_order_fn, lemma_char_order_total, lemma_lex_eq, lemma_lex_flip, lemma_lex_trans,
    text_compare, text_order, Order3,
};

verus! {

/// A sort key: `key_le` is a total preorder.
pub trait SortKey: Sized {
    spec fn key_le(&self, other: &Self) -> bool;

    proof fn lemma_key_total(a: &Self, b: &Self)
        ensures
            a.key_le(b) || b.key_le(a),
    ;

    proof fn lemma_key_trans(a: &Self, b: &Self, c: &Self)
        requires
            a.key_le(b),
            b.key_le(c),
        ensures
            a.key_le(c),
    ;

    fn le(&self, other: &Self) -> (r: bool)
        ensures
            r == self.key_le(other),
    ;
}

/// `p` lists each index below `n` exactly once.
pub open spec fn is_perm(p: Seq<usize>, n: nat) -> bool {
    &&& p.len() == n
    &&& forall|i: int| 0 <= i < p.len() ==> p[i] < n
    &&& forall|i: int, j: int| 0 <= i < j < p.len() ==> p[i] != p[j]
}

/// The keys taken in the order of `p` never decrease, and keys that are
/// equal keep their original order.
pub open spec fn sorted_stable<K: SortKey>(keys: Seq<K>, p: Seq<usize>) -> bool {
    &&& forall|i: int, j: int|
        #![trigger p[i], p[j]]
        0 <= i < j < p.len() ==> keys[p[i] as int].key_le(&keys[p[j] as int])
    &&& forall|i: int, j: int|
        #![trigger p[i], p[j]]
        0 <= i < j < p.len() && keys[p[j] as int].key_le(&keys[p[i] as int]) ==> p[i] < p[j]
}

/// Taken in the order of `p`, the keys never decrease under `le`, and keys
/// that are equal under it keep their original order.
pub open spec fn sorted_by<A>(le: spec_fn(A, A) -> bool, keys: Seq<A>, p: Seq<usize>) -> bool {
    &&& forall|i: int, j: int|
        #![trigger p[i], p[j]]
        0 <= i < j < p.len() ==> le(keys[p[i] as int], keys[p[j] as int])
    &&& forall|i: int, j: int|
        #![trigger p[i], p[j]]
        0 <= i < j < p.len() && le(keys[p[j] as int], keys[p[i] as int]) ==> p[i] < p[j]
}

/// `out` is `input` sorted stably by the keys (one per item) under `le`.
pub open spec fn stably_sorted<A, T>(
    le: spec_fn(A, A) -> bool,
    keys: Seq<A>,
    input: Seq<T>,
    out: Seq<T>,
) -> bool {
    exists|p: Seq<usize>|
        is_perm(p, input.len()) && sorted_by(le, keys, p) && out.len() == input.len() && forall|
            i: int,
        | 0 <= i < out.len() ==> out[i] == input[#[trigger] p[i] as int]
}

/// A stable order by executable keys is one by their abstract values when
/// the keys compare as the values do.
pub proof fn lemma_sorted_transfer<K: SortKey, A>(
    keys: Seq<K>,
    vs: Seq<A>,
    le: spec_fn(A, A) -> bool,
    p: Seq<usize>,
)
    requires
        keys.len() == vs.len(),
        is_perm(p, keys.len()),
        sorted_stable(keys, p),
        forall|i: int, j: int|
            #![trigger keys[i].key_le(&keys[j])]
            0 <= i < keys.len() && 0 <= j < keys.len() ==> keys[i].key_le(&keys[j]) == le(vs[i], vs[j]),
    ensures
        sorted_by(le, vs, p),
{
    assert forall|i: int, j: int| #![trigger p[i], p[j]] 0 <= i < j < p.len() implies le(
        vs[p[i] as int],
        vs[p[j] as int],
    ) by {
        assert(keys[p[i] as int].key_le(&keys[p[j] as int]));
    }
    assert forall|i: int, j: int| #![trigger p[i], p[j]]
        0 <= i < j < p.len() && le(vs[p[j] as int], vs[p[i] as int]) implies p[i] < p[j] by {
        assert(keys[p[j] as int].key_le(&keys[p[i] as int]));
    }
}

pub open spec fn desc_le() -> spec_fn(u64, u64) -> bool {
    |a: u64, b: u64| a >= b
}

pub open spec fn text_le_fn() -> spec_fn(Seq<char>, Seq<char>) -> bool {
    |a: Seq<char>, b: Seq<char>| text_le(a, b)
}

/// The order in which the items are to be listed: a stable sort by key.
pub fn stable_order<K: SortKey>(keys: &Vec<K>) -> (p: Vec<usize>)
    ensures
        is_perm(p@, keys@.len()),
        sorted_stable(keys@, p@),
{
    let mut p: Vec<usize> = Vec::new();
    let mut i: usize = 0;
    while i < keys.len()
        invariant
            i <= keys.len(),
            is_perm(p@, i as nat),
            sorted_stable(keys@, p@),
        decreases keys.len() - i,
    {
        // Find where index `i` goes: after every entry whose key is not above it.
        let mut k: usize = p.len();
        while k > 0 && !keys[p[k - 1]].le(&keys[i])
            invariant
                k <= p.len(),
                p.len() == i,
                i < keys.len(),
                is_perm(p@, i as nat),
                sorted_stable(keys@, p@),
                forall|m: int| k <= m < p.len() ==> !keys@[#[trigger] p@[m] as int].key_le(&keys@[i as int]),
            decreases k,
        {
            k = k - 1;
        }
        let ghost old_p = p@;
        proof {
            // Entries before k are not above i's key.
            if k > 0 {
                assert(keys@[old_p[k - 1] as int].key_le(&keys@[i as int]));
            }
            assert forall|m: int| 0 <= m < k implies keys@[#[trigger] old_p[m] as int].key_le(
                &keys@[i as int],
            ) by {
                if m < k - 1 {
                    K::lemma_key_trans(
                        &keys@[old_p[m] as int],
                        &keys@[old_p[k - 1] as int],
                        &keys@[i as int],
                    );
                }
            }
            assert forall|m: int| k <= m < old_p.len() implies keys@[i as int].key_le(
                &keys@[#[trigger] old_p[m] as int],
            ) by {
                K::lemma_key_total(&keys@[i as int], &keys@[old_p[m] as int]);
            }
        }
        p.insert(k, i);
        proof {
            let np = p@;
            assert(np == old_p.insert(k as int, i));
            assert forall|a: int| 0 <= a < np.len() implies np[a] < i + 1 by {
                if a < k {
                    assert(np[a] == old_p[a]);
                } else if a > k {
                    assert(np[a] == old_p[a - 1]);
                }
            }
            assert forall|a: int, b: int| 0 <= a < b < np.len() implies np[a] != np[b] by {
                if a < k && b < k {
                    assert(np[a] == old_p[a] && np[b] == old_p[b]);
                } else if a < k && b == k {
                    assert(np[a] == old_p[a]);
                } else if a < k && b > k {
                    assert(np[a] == old_p[a] && np[b] == old_p[b - 1]);
                } else if a == k {
                    assert(np[b] == old_p[b - 1]);
                } else {
                    assert(np[a] == old_p[a - 1] && np[b] == old_p[b - 1]);
                }
            }
            assert forall|a: int, b: int| #![trigger np[a], np[b]]
                0 <= a < b < np.len() implies keys@[np[a] as int].key_le(&keys@[np[b] as int]) by {
                if a < k && b < k {
                    assert(np[a] == old_p[a] && np[b] == old_p[b]);
                } else if a < k && b == k {
                    assert(np[a] == old_p[a]);
                } else if a < k && b > k {
                    assert(np[a] == old_p[a] && np[b] == old_p[b - 1]);
                    K::lemma_key_trans(
                        &keys@[old_p[a] as int],
                        &keys@[i as int],
                        &keys@[old_p[b - 1] as int],
                    );
                } else if a == k {
                    assert(np[b] == old_p[b - 1]);
                } else {
                    assert(np[a] == old_p[a - 1] && np[b] == old_p[b - 1]);
                }
            }
            assert forall|a: int, b: int| #![trigger np[a], np[b]]
                0 <= a < b < np.len() && keys@[np[b] as int].key_le(&keys@[np[a] as int]) implies np[a]
                < np[b] by {
                if a < k && b < k {
                    assert(np[a] == old_p[a] && np[b] == old_p[b]);
                } else if a < k && b == k {
                    assert(np[a] == old_p[a]);
                } else if a < k && b > k {
                    assert(np[a] == old_p[a] && np[b] == old_p[b - 1]);
                } else if a == k {
                    assert(np[b] == old_p[b - 1]);
                    assert(!keys@[old_p[b - 1] as int].key_le(&keys@[i as int]));
                } else {
                    assert(np[a] == old_p[a - 1] && np[b] == old_p[b - 1]);
                }
            }
        }
        i = i + 1;
    }
    p
}

// ---------------------------------------------------------------------------
// Keys
// ---------------------------------------------------------------------------

/// Text in ascending order (`str::cmp`: by characters, which for UTF-8 is
/// the byte order).
pub struct TextKey(pub Vec<char>);

pub open spec fn text_le(a: Seq<char>, b: Seq<char>) -> bool {
    text_order(a, b) != Order3::Greater
}

impl SortKey for TextKey {
    open spec fn key_le(&self, other: &Self) -> bool {
        text_le(self.0@, other.0@)
    }

    proof fn lemma_key_total(a: &Self, b: &Self) {
        lemma_char_order_total();
        lemma_lex_flip(a.0@, b.0@, char_order_fn());
    }

    proof fn lemma_key_trans(a: &Self, b: &Self, c: &Self) {
        lemma_char_order_total();
        lemma_lex_trans(a.0@, b.0@, c.0@, char_order_fn());
    }

    fn le(&self, other: &Self) -> (r: bool) {
        text_compare(&self.0, &other.0) != Order3::Greater
    }
}

/// Numbers in descending order.
pub struct Desc(pub u64);

impl SortKey for Desc {
    open spec fn key_le(&self, other: &Self) -> bool {
        self.0 >= other.0
    }

    proof fn lemma_key_total(a: &Self, b: &Self) {
    }

    proof fn lemma_key_trans(a: &Self, b: &Self, c: &Self) {
    }

    fn le(&self, other: &Self) -> (r: bool) {
        self.0 >= other.0
    }
}

/// Two texts compared one after the other (`a.cmp(b).then(c.cmp(d))`).
pub open spec fn pair_le(a0: Seq<char>, a1: Seq<char>, b0: Seq<char>, b1: Seq<char>) -> bool {
    text_order(a0, b0) == Order3::Less || (text_order(a0, b0) == Order3::Equal && text_le(a1, b1))
}

proof fn lemma_pair_total(a0: Seq<char>, a1: Seq<char>, b0: Seq<char>, b1: Seq<char>)
    ensures
        pair_le(a0, a1, b0, b1) || pair_le(b0, b1, a0, a1),
{
    lemma_char_order_total();
    lemma_lex_flip(a0, b0, char_order_fn());
    lemma_lex_flip(a1, b1, char_order_fn());
}

proof fn lemma_pair_trans(
    a0: Seq<char>,
    a1: Seq<char>,
    b0: Seq<char>,
    b1: Seq<char>,
    c0: Seq<char>,
    c1: Seq<char>,
)
    requires
        pair_le(a0, a1, b0, b1),
        pair_le(b0, b1, c0, c1),
    ensures
        pair_le(a0, a1, c0, c1),
{
    lemma_char_order_total();
    lemma_lex_trans(a0, b0, c0, char_order_fn());
    if text_order(a0, b0) == Order3::Equal {
        lemma_lex_eq(a0, b0, char_order_fn());
    }
    if text_order(b0, c0) == Order3::Equal {
        lemma_lex_eq(b0, c0, char_order_fn());
    }
    if text_order(a0, b0) == Order3::Equal && text_order(b0, c0) == Order3::Equal {
        lemma_lex_trans(a1, b1, c1, char_order_fn());
    }
    if text_order(a0, c0) == Order3::Equal {
        lemma_lex_eq(a0, c0, char_order_fn());
        if text_order(a0, b0) == Order3::Less {
            lemma_lex_flip(a0, b0, char_order_fn());
            assert(text_order(b0, a0) == Order3::Greater);
        }
    }
}

/// Two texts, ordered by the first and then by the second.
pub struct TextPairKey(pub Vec<char>, pub Vec<char>);

impl SortKey for TextPairKey {
    open spec fn key_le(&self, other: &Self) -> bool {
        pair_le(self.0@, self.1@, other.0@, other.1@)
    }

    proof fn lemma_key_total(a: &Self, b: &Self) {
        lemma_pair_total(a.0@, a.1@, b.0@, b.1@);
    }

    proof fn lemma_key_trans(a: &Self, b: &Self, c: &Self) {
        lemma_pair_trans(a.0@, a.1@, b.0@, b.1@, c.0@, c.1@);
    }

    fn le(&self, other: &Self) -> (r: bool) {
        let o = text_compare(&self.0, &other.0);
        match o {
            Order3::Less => true,
            Order3::Equal => text_compare(&self.1, &other.1) != Order3::Greater,
            Order3::Greater => false,
        }
    }
}

/// Rows of the environment table: `PATH` rows first, the rest by name and
/// then by source.
pub struct RowKey {
    pub is_path: bool,
    pub key: Vec<char>,
    pub source: Vec<char>,
}

pub open spec fn row_le(a_path: bool, a: (Seq<char>, Seq<char>), b_path: bool, b: (Seq<char>, Seq<char>)) -> bool {
    if a_path != b_path {
        a_path
    } else {
        pair_le(a.0, a.1, b.0, b.1)
    }
}

impl SortKey for RowKey {
    open spec fn key_le(&self, other: &Self) -> bool {
        row_le(self.is_path, (self.key@, self.source@), other.is_path, (other.key@, other.source@))
    }

    proof fn lemma_key_total(a: &Self, b: &Self) {
        lemma_pair_total(a.key@, a.source@, b.key@, b.source@);
    }

    proof fn lemma_key_trans(a: &Self, b: &Self, c: &Self) {
        if a.is_path == b.is_path && b.is_path == c.is_path {
            lemma_pair_trans(a.key@, a.source@, b.key@, b.source@, c.key@, c.source@);
        }
    }

    fn le(&self, other: &Self) -> (r: bool) {
        if self.is_path != other.is_path {
            return self.is_path;
        }
        let o = text_compare(&self.key, &other.key);
        match o {
            Order3::Less => true,
            Order3::Equal => text_compare(&self.source, &other.source) != Order3::Greater,
            Order3::Greater => false,
        }
    }
}

/// Signed numbers in descending order.
pub struct DescI(pub i64);

impl SortKey for DescI {
    open spec fn key_le(&self, other: &Self) -> bool {
        self.0 >= other.0
    }

    proof fn lemma_key_total(a: &Self, b: &Self) {
    }

    proof fn lemma_key_trans(a: &Self, b: &Self, c: &Self) {
    }

    fn le(&self, other: &Self) -> (r: bool) {
        self.0 >= other.0
    }
}

pub open spec fn desc_i_le() -> spec_fn(i64, i64) -> bool {
    |a: i64, b: i64| a >= b
}

} // verus!
