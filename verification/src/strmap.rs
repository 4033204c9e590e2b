//! A string-keyed map that keeps its entries in insertion order.

use vstd::prelude::*;

use crate::text::{chars_of, chars_of_string, eq};

verus! {

/// No key occurs twice.
pub open spec fn distinct_keys<V>(e: Seq<(Seq<char>, V)>) -> bool {
    forall|i: int, j: int| 0 <= i < j < e.len() ==> e[i].0 != e[j].0
}

/// The value stored under `k`, if any.
pub open spec fn lookup<V>(e: Seq<(Seq<char>, V)>, k: Seq<char>) -> Option<V> {
    if exists|i: int| 0 <= i < e.len() && e[i].0 == k {
        Some(e[choose|i: int| 0 <= i < e.len() && e[i].0 == k].1)
    } else {
        None
    }
}

pub proof fn lemma_lookup_at<V>(e: Seq<(Seq<char>, V)>, i: int)
    requires
        distinct_keys(e),
        0 <= i < e.len(),
    ensures
        lookup(e, e[i].0) == Some(e[i].1),
{
    let j = choose|j: int| 0 <= j < e.len() && e[j].0 == e[i].0;
    if j != i {
        if j < i {
            assert(e[j].0 != e[i].0);
        } else {
            assert(e[i].0 != e[j].0);
        }
    }
}

/// The entries after `insert(k, v)`: an existing key keeps its place and
/// takes the new value; a new key goes last.
pub open spec fn inserted<V>(e: Seq<(Seq<char>, V)>, k: Seq<char>, v: V) -> Seq<(Seq<char>, V)> {
    if exists|i: int| 0 <= i < e.len() && e[i].0 == k {
        e.update(choose|i: int| 0 <= i < e.len() && e[i].0 == k, (k, v))
    } else {
        e.push((k, v))
    }
}

/// Setting a key keeps keys distinct, makes the key give the new value and
/// leaves every other key as it was.
pub proof fn lemma_lookup_inserted<V>(e: Seq<(Seq<char>, V)>, k: Seq<char>, v: V, q: Seq<char>)
    requires
        distinct_keys(e),
    ensures
        distinct_keys(inserted(e, k, v)),
        lookup(inserted(e, k, v), q) == (if q == k {
            Some(v)
        } else {
            lookup(e, q)
        }),
{
    let n = inserted(e, k, v);
    if exists|i: int| 0 <= i < e.len() && e[i].0 == k {
        let c = choose|i: int| 0 <= i < e.len() && e[i].0 == k;
        assert(n == e.update(c, (k, v)));
        assert forall|i: int, j: int| 0 <= i < j < n.len() implies n[i].0 != n[j].0 by {
            assert(e[i].0 != e[j].0);
        }
        lemma_lookup_at(n, c);
        if q != k {
            if exists|i: int| 0 <= i < e.len() && e[i].0 == q {
                let w = choose|i: int| 0 <= i < e.len() && e[i].0 == q;
                lemma_lookup_at(e, w);
                lemma_lookup_at(n, w);
            } else {
                assert(!exists|i: int| 0 <= i < n.len() && n[i].0 == q) by {
                    if exists|i: int| 0 <= i < n.len() && n[i].0 == q {
                        let w = choose|i: int| 0 <= i < n.len() && n[i].0 == q;
                        assert(e[w].0 == q);
                    }
                }
            }
        }
    } else {
        assert(n == e.push((k, v)));
        assert forall|i: int, j: int| 0 <= i < j < n.len() implies n[i].0 != n[j].0 by {
            if j < e.len() {
                assert(e[i].0 != e[j].0);
            }
        }
        lemma_lookup_at(n, e.len() as int);
        if q != k {
            if exists|i: int| 0 <= i < e.len() && e[i].0 == q {
                let w = choose|i: int| 0 <= i < e.len() && e[i].0 == q;
                lemma_lookup_at(e, w);
                lemma_lookup_at(n, w);
            } else {
                assert(!exists|i: int| 0 <= i < n.len() && n[i].0 == q) by {
                    if exists|i: int| 0 <= i < n.len() && n[i].0 == q {
                        let w = choose|i: int| 0 <= i < n.len() && n[i].0 == q;
                        assert(w < e.len());
                        assert(e[w].0 == q);
                    }
                }
            }
        }
    }
}

/// The entries after `remove(k)`.
pub open spec fn removed<V>(e: Seq<(Seq<char>, V)>, k: Seq<char>) -> Seq<(Seq<char>, V)> {
    if exists|i: int| 0 <= i < e.len() && e[i].0 == k {
        e.remove(choose|i: int| 0 <= i < e.len() && e[i].0 == k)
    } else {
        e
    }
}

/// Removing a key keeps keys distinct, makes the key give nothing and
/// leaves every other key as it was.
pub proof fn lemma_lookup_removed<V>(e: Seq<(Seq<char>, V)>, k: Seq<char>, q: Seq<char>)
    requires
        distinct_keys(e),
    ensures
        distinct_keys(removed(e, k)),
        lookup(removed(e, k), q) == (if q == k {
            None
        } else {
            lookup(e, q)
        }),
{
    let n = removed(e, k);
    if exists|i: int| 0 <= i < e.len() && e[i].0 == k {
        let c = choose|i: int| 0 <= i < e.len() && e[i].0 == k;
        assert(n == e.remove(c));
        assert forall|i: int, j: int| 0 <= i < j < n.len() implies n[i].0 != n[j].0 by {
            let a = if i < c { i } else { i + 1 };
            let b = if j < c { j } else { j + 1 };
            assert(n[i] == e[a] && n[j] == e[b]);
            assert(e[a].0 != e[b].0);
        }
        if q == k {
            assert(!exists|i: int| 0 <= i < n.len() && n[i].0 == q) by {
                if exists|i: int| 0 <= i < n.len() && n[i].0 == q {
                    let w = choose|i: int| 0 <= i < n.len() && n[i].0 == q;
                    let a = if w < c { w } else { w + 1 };
                    assert(n[w] == e[a]);
                    if a < c {
                        assert(e[a].0 != e[c].0);
                    } else {
                        assert(e[c].0 != e[a].0);
                    }
                }
            }
        } else {
            if exists|i: int| 0 <= i < e.len() && e[i].0 == q {
                let w = choose|i: int| 0 <= i < e.len() && e[i].0 == q;
                lemma_lookup_at(e, w);
                assert(w != c);
                let m = if w < c { w } else { w - 1 };
                assert(n[m] == e[w]);
                lemma_lookup_at(n, m);
            } else {
                assert(!exists|i: int| 0 <= i < n.len() && n[i].0 == q) by {
                    if exists|i: int| 0 <= i < n.len() && n[i].0 == q {
                        let w = choose|i: int| 0 <= i < n.len() && n[i].0 == q;
                        let a = if w < c { w } else { w + 1 };
                        assert(n[w] == e[a]);
                    }
                }
            }
        }
    } else {
        assert(n == e);
    }
}

/// A map from strings to strings; its entries keep the order of first insertion.
pub struct StrMap {
    entries: Vec<(String, String)>,
}

impl StrMap {
    /// The entries, in order.
    pub closed spec fn pairs(&self) -> Seq<(Seq<char>, Seq<char>)> {
        self.entries@.map_values(|p: (String, String)| (p.0@, p.1@))
    }

    #[verifier::type_invariant]
    closed spec fn wf(&self) -> bool {
        distinct_keys(self.pairs())
    }

    pub fn new() -> (m: StrMap)
        ensures
            m.pairs() == Seq::<(Seq<char>, Seq<char>)>::empty(),
            distinct_keys(m.pairs()),
    {
        let m = StrMap { entries: Vec::new() };
        assert(m.pairs() =~= Seq::<(Seq<char>, Seq<char>)>::empty());
        m
    }

    pub fn len(&self) -> (n: usize)
        ensures
            n == self.pairs().len(),
    {
        self.entries.len()
    }

    /// The key and value of entry `i`.
    pub fn entry(&self, i: usize) -> (r: (&String, &String))
        requires
            i < self.pairs().len(),
        ensures
            r.0@ == self.pairs()[i as int].0,
            r.1@ == self.pairs()[i as int].1,
    {
        let e = &self.entries[i];
        (&e.0, &e.1)
    }

    fn position(&self, k: &str) -> (r: Option<usize>)
        ensures
            match r {
                Some(i) => i < self.pairs().len() && self.pairs()[i as int].0 == k@,
                None => forall|i: int| 0 <= i < self.pairs().len() ==> self.pairs()[i].0 != k@,
            },
    {
        let kc = chars_of(k);
        let mut i: usize = 0;
        while i < self.entries.len()
            invariant
                i <= self.entries.len(),
                kc@ == k@,
                forall|j: int| 0 <= j < i ==> self.pairs()[j].0 != k@,
            decreases self.entries.len() - i,
        {
            let ec = chars_of_string(&self.entries[i].0);
            if eq(&ec, &kc) {
                return Some(i);
            }
            i = i + 1;
        }
        None
    }

    /// The value under `k`.
    pub fn get(&self, k: &str) -> (r: Option<&String>)
        ensures
            match r {
                Some(v) => lookup(self.pairs(), k@) == Some(v@),
                None => lookup(self.pairs(), k@) is None,
            },
    {
        proof {
            use_type_invariant(self);
        }
        match self.position(k) {
            Some(i) => {
                proof {
                    lemma_lookup_at(self.pairs(), i as int);
                }
                Some(&self.entries[i].1)
            },
            None => None,
        }
    }

    /// Sets `k` to `v`; gives back the value it replaced.
    pub fn insert(&mut self, k: String, v: String) -> (r: Option<String>)
        ensures
            final(self).pairs() == inserted(old(self).pairs(), k@, v@),
            distinct_keys(old(self).pairs()),
            distinct_keys(final(self).pairs()),
            match r {
                Some(o) => lookup(old(self).pairs(), k@) == Some(o@),
                None => lookup(old(self).pairs(), k@) is None,
            },
    {
        proof {
            use_type_invariant(&*self);
        }
        let ghost e = self.pairs();
        match self.position(k.as_str()) {
            Some(i) => {
                proof {
                    lemma_lookup_at(e, i as int);
                    let c = choose|j: int| 0 <= j < e.len() && e[j].0 == k@;
                    if c != i as int {
                        if c < i {
                            assert(e[c].0 != e[i as int].0);
                        } else {
                            assert(e[i as int].0 != e[c].0);
                        }
                    }
                }
                let mut entries: Vec<(String, String)> = Vec::new();
                std::mem::swap(&mut entries, &mut self.entries);
                let (old_k, old_v) = entries.remove(i);
                entries.insert(i, (old_k, v));
                proof {
                    assert(entries@.map_values(|p: (String, String)| (p.0@, p.1@)) =~= e.update(
                        i as int,
                        (k@, v@),
                    ));
                }
                self.entries = entries;
                Some(old_v)
            },
            None => {
                let mut entries: Vec<(String, String)> = Vec::new();
                std::mem::swap(&mut entries, &mut self.entries);
                entries.push((k, v));
                proof {
                    assert(entries@.map_values(|p: (String, String)| (p.0@, p.1@)) =~= e.push(
                        (k@, v@),
                    ));
                }
                self.entries = entries;
                None
            },
        }
    }

    /// Removes `k`; gives back its value.
    pub fn remove(&mut self, k: &str) -> (r: Option<String>)
        ensures
            final(self).pairs() == removed(old(self).pairs(), k@),
            distinct_keys(old(self).pairs()),
            distinct_keys(final(self).pairs()),
            match r {
                Some(o) => lookup(old(self).pairs(), k@) == Some(o@),
                None => lookup(old(self).pairs(), k@) is None,
            },
    {
        proof {
            use_type_invariant(&*self);
        }
        let ghost e = self.pairs();
        match self.position(k) {
            Some(i) => {
                proof {
                    lemma_lookup_at(e, i as int);
                    let c = choose|j: int| 0 <= j < e.len() && e[j].0 == k@;
                    if c != i as int {
                        if c < i {
                            assert(e[c].0 != e[i as int].0);
                        } else {
                            assert(e[i as int].0 != e[c].0);
                        }
                    }
                }
                let mut entries: Vec<(String, String)> = Vec::new();
                std::mem::swap(&mut entries, &mut self.entries);
                let (_old_k, old_v) = entries.remove(i);
                proof {
                    assert(entries@.map_values(|p: (String, String)| (p.0@, p.1@)) =~= e.remove(
                        i as int,
                    ));
                }
                self.entries = entries;
                Some(old_v)
            },
            None => None,
        }
    }
}

impl StrMap {
    /// A copy of the map, entries in the same order.
    pub fn copy(&self) -> (r: StrMap)
        ensures
            r.pairs() == self.pairs(),
    {
        let mut entries: Vec<(String, String)> = Vec::new();
        let mut i: usize = 0;
        while i < self.entries.len()
            invariant
                i <= self.entries.len(),
                entries@.map_values(|p: (String, String)| (p.0@, p.1@)) == self.pairs().take(i as int),
            decreases self.entries.len() - i,
        {
            let ghost before = entries@.map_values(|p: (String, String)| (p.0@, p.1@));
            let e = &self.entries[i];
            entries.push((e.0.clone(), e.1.clone()));
            assert(entries@.map_values(|p: (String, String)| (p.0@, p.1@)) =~= before.push(
                self.pairs()[i as int],
            ));
            assert(self.pairs().take(i + 1) =~= self.pairs().take(i as int).push(self.pairs()[i as int]));
            i = i + 1;
        }
        assert(self.pairs().take(self.entries.len() as int) =~= self.pairs());
        proof {
            use_type_invariant(self);
        }
        StrMap { entries }
    }
}

/// A map from strings to values, each key once, in order of first insertion.
pub struct KeyMap<V> {
    entries: Vec<(String, V)>,
}

impl<V> KeyMap<V> {
    /// The entries, in order.
    pub closed spec fn pairs(&self) -> Seq<(Seq<char>, V)> {
        self.entries@.map_values(|p: (String, V)| (p.0@, p.1))
    }

    #[verifier::type_invariant]
    closed spec fn wf(&self) -> bool {
        distinct_keys(self.pairs())
    }

    pub fn new() -> (m: KeyMap<V>)
        ensures
            m.pairs() == Seq::<(Seq<char>, V)>::empty(),
    {
        let m = KeyMap { entries: Vec::new() };
        assert(m.pairs() =~= Seq::<(Seq<char>, V)>::empty());
        m
    }

    pub fn len(&self) -> (n: usize)
        ensures
            n == self.pairs().len(),
            distinct_keys(self.pairs()),
    {
        proof {
            use_type_invariant(self);
        }
        self.entries.len()
    }

    /// The key and value of entry `i`.
    pub fn entry(&self, i: usize) -> (r: (&String, &V))
        requires
            i < self.pairs().len(),
        ensures
            r.0@ == self.pairs()[i as int].0,
            *r.1 == self.pairs()[i as int].1,
    {
        let e = &self.entries[i];
        (&e.0, &e.1)
    }

    fn position(&self, k: &str) -> (r: Option<usize>)
        ensures
            match r {
                Some(i) => i < self.pairs().len() && self.pairs()[i as int].0 == k@,
                None => forall|i: int| 0 <= i < self.pairs().len() ==> self.pairs()[i].0 != k@,
            },
    {
        let kc = chars_of(k);
        let mut i: usize = 0;
        while i < self.entries.len()
            invariant
                i <= self.entries.len(),
                kc@ == k@,
                forall|j: int| 0 <= j < i ==> self.pairs()[j].0 != k@,
            decreases self.entries.len() - i,
        {
            let ec = chars_of_string(&self.entries[i].0);
            if eq(&ec, &kc) {
                return Some(i);
            }
            i = i + 1;
        }
        None
    }

    /// The value under `k`.
    pub fn get(&self, k: &str) -> (r: Option<&V>)
        ensures
            match r {
                Some(v) => lookup(self.pairs(), k@) == Some(*v),
                None => lookup(self.pairs(), k@) is None,
            },
            distinct_keys(self.pairs()),
    {
        proof {
            use_type_invariant(self);
        }
        match self.position(k) {
            Some(i) => {
                proof {
                    lemma_lookup_at(self.pairs(), i as int);
                }
                Some(&self.entries[i].1)
            },
            None => None,
        }
    }

    /// Sets `k` to `v`; gives back the value it replaced.
    pub fn insert(&mut self, k: String, v: V) -> (r: Option<V>)
        ensures
            final(self).pairs() == inserted(old(self).pairs(), k@, v),
            distinct_keys(old(self).pairs()),
            distinct_keys(final(self).pairs()),
            r == lookup(old(self).pairs(), k@),
    {
        proof {
            use_type_invariant(&*self);
        }
        let ghost e = self.pairs();
        proof {
            lemma_lookup_inserted(e, k@, v, k@);
        }
        match self.position(k.as_str()) {
            Some(i) => {
                proof {
                    lemma_lookup_at(e, i as int);
                    let c = choose|j: int| 0 <= j < e.len() && e[j].0 == k@;
                    if c != i as int {
                        if c < i {
                            assert(e[c].0 != e[i as int].0);
                        } else {
                            assert(e[i as int].0 != e[c].0);
                        }
                    }
                }
                let mut entries: Vec<(String, V)> = Vec::new();
                std::mem::swap(&mut entries, &mut self.entries);
                let (old_k, old_v) = entries.remove(i);
                entries.insert(i, (old_k, v));
                proof {
                    assert(entries@.map_values(|p: (String, V)| (p.0@, p.1)) =~= e.update(
                        i as int,
                        (k@, v),
                    ));
                }
                self.entries = entries;
                Some(old_v)
            },
            None => {
                let mut entries: Vec<(String, V)> = Vec::new();
                std::mem::swap(&mut entries, &mut self.entries);
                entries.push((k, v));
                proof {
                    assert(entries@.map_values(|p: (String, V)| (p.0@, p.1)) =~= e.push((k@, v)));
                }
                self.entries = entries;
                None
            },
        }
    }
}

} // verus!
