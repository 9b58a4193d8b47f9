//! An association list over `u64` keys, kept sorted by strictly increasing
//! key. Lookups are linear, but iteration order is deterministic and two
//! maps with the same entries look the same byte for byte, which the
//! consensus engine relies on when peers compare batches.

use vstd::prelude::*;

verus! {

/// Keys strictly increase along the entry sequence.
pub open spec fn kseq_sorted<V>(s: Seq<(u64, V)>) -> bool {
    forall|i: int, j: int| 0 <= i < j < s.len() ==> s[i].0 < s[j].0
}

pub open spec fn kseq_contains<V>(s: Seq<(u64, V)>, k: u64) -> bool {
    exists|i: int| 0 <= i < s.len() && s[i].0 == k
}

pub open spec fn kseq_index_of<V>(s: Seq<(u64, V)>, k: u64) -> int {
    choose|i: int| 0 <= i < s.len() && s[i].0 == k
}

pub open spec fn kseq_get<V>(s: Seq<(u64, V)>, k: u64) -> Option<V> {
    if kseq_contains(s, k) {
        Some(s[kseq_index_of(s, k)].1)
    } else {
        None
    }
}

/// In a sorted entry sequence, a key is found only at its own position.
pub proof fn lemma_kseq_index_unique<V>(s: Seq<(u64, V)>, k: u64, i: int)
    requires
        kseq_sorted(s),
        0 <= i < s.len(),
        s[i].0 == k,
    ensures
        kseq_contains(s, k),
        kseq_index_of(s, k) == i,
        kseq_get(s, k) == Some(s[i].1),
{
    let j = kseq_index_of(s, k);
    assert(0 <= j < s.len() && s[j].0 == k);
    if j < i {
        assert(s[j].0 < s[i].0);
    } else if i < j {
        assert(s[i].0 < s[j].0);
    }
}

/// Sortedness follows from each key being above its left neighbour.
pub proof fn lemma_step_sorted<V>(s: Seq<(u64, V)>)
    requires
        forall|i: int| 0 < i < s.len() ==> (#[trigger] s[i]).0 > s[i - 1].0,
    ensures
        kseq_sorted(s),
{
    assert forall|i: int, j: int| 0 <= i < j < s.len() implies s[i].0 < s[j].0 by {
        lemma_step_chain(s, i, j);
    }
}

proof fn lemma_step_chain<V>(s: Seq<(u64, V)>, i: int, j: int)
    requires
        forall|k: int| 0 < k < s.len() ==> (#[trigger] s[k]).0 > s[k - 1].0,
        0 <= i < j < s.len(),
    ensures
        s[i].0 < s[j].0,
    decreases j - i,
{
    if i + 1 < j {
        lemma_step_chain(s, i, j - 1);
    }
    assert(s[j - 1].0 < s[j].0);
}

#[derive(PartialEq, Eq, Debug)]
pub struct OrderedMap<V> {
    pub entries: Vec<(u64, V)>,
}

impl<V> OrderedMap<V> {
    /// The entry sequence; sorted by key whenever the map is well formed.
    pub open spec fn sq(self) -> Seq<(u64, V)> {
        self.entries@
    }

    pub open spec fn wf(self) -> bool {
        kseq_sorted(self.sq())
    }

    pub open spec fn spec_contains_key(self, k: u64) -> bool {
        kseq_contains(self.sq(), k)
    }

    pub open spec fn spec_index_of(self, k: u64) -> int {
        kseq_index_of(self.sq(), k)
    }

    pub open spec fn spec_get(self, k: u64) -> Option<V> {
        kseq_get(self.sq(), k)
    }

    pub open spec fn spec_keys(self) -> Seq<u64> {
        self.sq().map_values(|e: (u64, V)| e.0)
    }

    /// In a well-formed map, every entry is what lookup by its key returns.
    pub proof fn lemma_all_entries(self)
        requires
            self.wf(),
        ensures
            forall|i: int|
                0 <= i < self.sq().len() ==> self.spec_get((#[trigger] self.sq()[i]).0) == Some(
                    self.sq()[i].1,
                ),
    {
        assert forall|i: int| 0 <= i < self.sq().len() implies self.spec_get(
            (#[trigger] self.sq()[i]).0,
        ) == Some(self.sq()[i].1) by {
            lemma_kseq_index_unique(self.sq(), self.sq()[i].0, i);
        }
    }

    pub fn new() -> (r: Self)
        ensures
            r.sq() =~= Seq::<(u64, V)>::empty(),
            r.wf(),
    {
        OrderedMap { entries: Vec::new() }
    }

    pub fn len(&self) -> (n: usize)
        ensures
            n == self.sq().len(),
    {
        self.entries.len()
    }

    /// Consumes the map, yielding its entries in key order.
    pub fn into_entries(self) -> (r: Vec<(u64, V)>)
        ensures
            r@ == self.sq(),
    {
        self.entries
    }

    /// The keys, in order.
    pub fn keys_vec(&self) -> (r: Vec<u64>)
        ensures
            r@ == self.spec_keys(),
    {
        let n = self.entries.len();
        let mut r: Vec<u64> = Vec::new();
        let mut i: usize = 0;
        while i < n
            invariant
                n == self.sq().len(),
                i <= n,
                r@ =~= self.spec_keys().take(i as int),
            decreases n - i,
        {
            r.push(self.entries[i].0);
            proof {
                assert(self.spec_keys()[i as int] == self.sq()[i as int].0);
                assert(r@ =~= self.spec_keys().take(i + 1));
            }
            i = i + 1;
        }
        proof {
            assert(self.spec_keys().take(n as int) =~= self.spec_keys());
        }
        r
    }

    /// Adds an entry whose key lies above every present key: it lands at
    /// the end.
    pub fn append(&mut self, k: u64, v: V)
        requires
            old(self).wf(),
            forall|i: int| 0 <= i < old(self).sq().len() ==> (#[trigger] old(self).sq()[i]).0 < k,
        ensures
            final(self).wf(),
            final(self).sq() == old(self).sq().push((k, v)),
    {
        self.entries.push((k, v));
        proof {
            assert(self.sq() =~= old(self).sq().push((k, v)));
        }
    }

    pub fn is_empty(&self) -> (b: bool)
        ensures
            b <==> self.sq().len() == 0,
    {
        self.entries.len() == 0
    }

    pub fn key_at(&self, i: usize) -> (k: u64)
        requires
            i < self.sq().len(),
        ensures
            k == self.sq()[i as int].0,
    {
        self.entries[i].0
    }

    pub fn val_at(&self, i: usize) -> (v: &V)
        requires
            i < self.sq().len(),
        ensures
            *v == self.sq()[i as int].1,
    {
        &self.entries[i].1
    }

    /// The position of the first key at or above `k`.
    fn find_lb(&self, k: u64) -> (i: usize)
        requires
            self.wf(),
        ensures
            i <= self.sq().len(),
            forall|j: int| 0 <= j < i ==> self.sq()[j].0 < k,
            i < self.sq().len() ==> self.sq()[i as int].0 >= k,
    {
        let n = self.entries.len();
        let mut i: usize = 0;
        while i < n
            invariant
                n == self.sq().len(),
                i <= n,
                forall|j: int| 0 <= j < i ==> self.sq()[j].0 < k,
            decreases n - i,
        {
            if self.entries[i].0 >= k {
                return i;
            }
            i = i + 1;
        }
        i
    }

    pub fn contains_key(&self, k: u64) -> (b: bool)
        requires
            self.wf(),
        ensures
            b <==> self.spec_contains_key(k),
    {
        self.get(k).is_some()
    }

    pub fn get(&self, k: u64) -> (r: Option<&V>)
        requires
            self.wf(),
        ensures
            match r {
                Some(v) => self.spec_get(k) == Some(*v),
                None => !self.spec_contains_key(k),
            },
    {
        let i = self.find_lb(k);
        if i < self.entries.len() && self.entries[i].0 == k {
            proof {
                lemma_kseq_index_unique(self.sq(), k, i as int);
            }
            Some(&self.entries[i].1)
        } else {
            proof {
                if self.spec_contains_key(k) {
                    let j = self.spec_index_of(k);
                    assert(0 <= j < self.sq().len() && self.sq()[j].0 == k);
                    if j < i {
                        assert(self.sq()[j].0 < k);
                    } else if i < self.sq().len() {
                        assert(i < j ==> self.sq()[i as int].0 < self.sq()[j].0);
                    }
                }
            }
            None
        }
    }

    /// Inserts or replaces the value for `k`. Every other key is untouched.
    pub fn insert(&mut self, k: u64, v: V)
        requires
            old(self).wf(),
        ensures
            final(self).wf(),
            final(self).spec_get(k) == Some(v),
            forall|k2: u64|
                k2 != k ==> final(self).spec_get(k2) == old(self).spec_get(k2),
            forall|k2: u64|
                #[trigger] final(self).spec_contains_key(k2) <==> k2 == k
                    || old(self).spec_contains_key(k2),
            final(self).sq().len() == old(self).sq().len() + (
            if old(self).spec_contains_key(k) {
                0int
            } else {
                1int
            }),
    {
        let ghost s0 = self.sq();
        let i = self.find_lb(k);
        if i < self.entries.len() && self.entries[i].0 == k {
            self.entries[i] = (k, v);
            proof {
                lemma_kseq_index_unique(s0, k, i as int);
                assert(self.sq() =~= s0.update(i as int, (k, v)));
                assert(self.wf());
                lemma_kseq_index_unique(self.sq(), k, i as int);
                assert forall|k2: u64| k2 != k implies self.spec_get(k2) == kseq_get(
                    s0,
                    k2,
                ) by {
                    Self::lemma_update_frame(s0, self.sq(), i as int, k, v, k2);
                }
                assert forall|k2: u64| #[trigger]
                    self.spec_contains_key(k2) <==> k2 == k || kseq_contains(s0, k2) by {
                    if k2 != k {
                        Self::lemma_update_frame(s0, self.sq(), i as int, k, v, k2);
                    } else {
                        assert(self.spec_contains_key(k));
                        assert(kseq_contains(s0, k));
                    }
                }
            }
        } else {
            proof {
                if kseq_contains(s0, k) {
                    let j = kseq_index_of(s0, k);
                    assert(0 <= j < s0.len() && s0[j].0 == k);
                    assert(j < i ==> s0[j].0 < k);
                    assert(i <= j && i < s0.len() ==> s0[i as int].0 <= s0[j].0);
                    assert(false);
                }
            }
            self.entries.insert(i, (k, v));
            proof {
                assert(self.sq() =~= s0.insert(i as int, (k, v)));
                assert forall|a: int, b: int|
                    0 <= a < b < self.sq().len() implies self.sq()[a].0
                    < self.sq()[b].0 by {
                    if a < i && b > i {
                        assert(self.sq()[a].0 == s0[a].0 && s0[a].0 < k);
                        assert(self.sq()[b].0 == s0[b - 1].0);
                        assert(s0[b - 1].0 >= s0[i as int].0 || b - 1 == i);
                    }
                }
                lemma_kseq_index_unique(self.sq(), k, i as int);
                assert forall|k2: u64| k2 != k implies self.spec_get(k2) == kseq_get(
                    s0,
                    k2,
                ) by {
                    Self::lemma_insert_frame(s0, self.sq(), i as int, k, v, k2);
                }
                assert forall|k2: u64| #[trigger]
                    self.spec_contains_key(k2) <==> k2 == k || kseq_contains(s0, k2) by {
                    if k2 != k {
                        Self::lemma_insert_frame(s0, self.sq(), i as int, k, v, k2);
                    } else {
                        assert(self.spec_contains_key(k));
                    }
                }
            }
        }
    }

    proof fn lemma_update_frame(s0: Seq<(u64, V)>, s1: Seq<(u64, V)>, i: int, k: u64, v: V, k2: u64)
        requires
            kseq_sorted(s0),
            kseq_sorted(s1),
            0 <= i < s0.len(),
            s0[i].0 == k,
            s1 == s0.update(i, (k, v)),
            k2 != k,
        ensures
            kseq_get(s1, k2) == kseq_get(s0, k2),
            kseq_contains(s1, k2) <==> kseq_contains(s0, k2),
    {
        if kseq_contains(s0, k2) {
            let j = kseq_index_of(s0, k2);
            assert(0 <= j < s0.len() && s0[j].0 == k2);
            assert(j != i);
            assert(s1[j].0 == k2 && s1[j].1 == s0[j].1);
            lemma_kseq_index_unique(s1, k2, j);
            lemma_kseq_index_unique(s0, k2, j);
        } else if kseq_contains(s1, k2) {
            let j = kseq_index_of(s1, k2);
            assert(0 <= j < s1.len() && s1[j].0 == k2);
            assert(j != i);
            assert(s0[j].0 == k2);
        }
    }

    proof fn lemma_insert_frame(s0: Seq<(u64, V)>, s1: Seq<(u64, V)>, i: int, k: u64, v: V, k2: u64)
        requires
            kseq_sorted(s0),
            kseq_sorted(s1),
            0 <= i <= s0.len(),
            s1 == s0.insert(i, (k, v)),
            k2 != k,
        ensures
            kseq_get(s1, k2) == kseq_get(s0, k2),
            kseq_contains(s1, k2) <==> kseq_contains(s0, k2),
    {
        if kseq_contains(s0, k2) {
            let j = kseq_index_of(s0, k2);
            assert(0 <= j < s0.len() && s0[j].0 == k2);
            if j < i {
                assert(s1[j].0 == k2 && s1[j].1 == s0[j].1);
                lemma_kseq_index_unique(s1, k2, j);
            } else {
                assert(s1[j + 1].0 == k2 && s1[j + 1].1 == s0[j].1);
                lemma_kseq_index_unique(s1, k2, j + 1);
            }
            lemma_kseq_index_unique(s0, k2, j);
        } else if kseq_contains(s1, k2) {
            let j = kseq_index_of(s1, k2);
            assert(0 <= j < s1.len() && s1[j].0 == k2);
            assert(j != i);
            if j < i {
                assert(s0[j].0 == k2);
            } else {
                assert(s0[j - 1].0 == k2);
            }
        }
    }

    /// Removes `k` if present. Every other key is untouched.
    pub fn remove(&mut self, k: u64)
        requires
            old(self).wf(),
        ensures
            final(self).wf(),
            !final(self).spec_contains_key(k),
            forall|k2: u64|
                k2 != k ==> final(self).spec_get(k2) == old(self).spec_get(k2),
            forall|k2: u64|
                #[trigger] final(self).spec_contains_key(k2) <==> k2 != k
                    && old(self).spec_contains_key(k2),
    {
        let ghost s0 = self.sq();
        let i = self.find_lb(k);
        if i < self.entries.len() && self.entries[i].0 == k {
            self.entries.remove(i);
            proof {
                lemma_kseq_index_unique(s0, k, i as int);
                assert(self.sq() =~= s0.remove(i as int));
                assert forall|a: int, b: int|
                    0 <= a < b < self.sq().len() implies self.sq()[a].0
                    < self.sq()[b].0 by {
                    if a < i && b >= i {
                        assert(self.sq()[a].0 == s0[a].0);
                        assert(self.sq()[b].0 == s0[b + 1].0);
                    }
                }
                if self.spec_contains_key(k) {
                    let j = self.spec_index_of(k);
                    assert(0 <= j < self.sq().len() && self.sq()[j].0 == k);
                    if j < i {
                        assert(s0[j].0 == k);
                        lemma_kseq_index_unique(s0, k, j);
                    } else {
                        assert(s0[j + 1].0 == k);
                        lemma_kseq_index_unique(s0, k, j + 1);
                    }
                }
                assert forall|k2: u64| k2 != k implies self.spec_get(k2) == kseq_get(
                    s0,
                    k2,
                ) && (self.spec_contains_key(k2) <==> kseq_contains(s0, k2)) by {
                    Self::lemma_remove_frame(s0, self.sq(), i as int, k, k2);
                }
            }
        } else {
            proof {
                if kseq_contains(s0, k) {
                    let j = kseq_index_of(s0, k);
                    assert(0 <= j < s0.len() && s0[j].0 == k);
                    assert(j < i ==> s0[j].0 < k);
                    assert(i <= j && i < s0.len() ==> s0[i as int].0 <= s0[j].0);
                    assert(false);
                }
            }
        }
    }

    proof fn lemma_remove_frame(s0: Seq<(u64, V)>, s1: Seq<(u64, V)>, i: int, k: u64, k2: u64)
        requires
            kseq_sorted(s0),
            kseq_sorted(s1),
            0 <= i < s0.len(),
            s0[i].0 == k,
            s1 == s0.remove(i),
            k2 != k,
        ensures
            kseq_get(s1, k2) == kseq_get(s0, k2),
            kseq_contains(s1, k2) <==> kseq_contains(s0, k2),
    {
        if kseq_contains(s0, k2) {
            let j = kseq_index_of(s0, k2);
            assert(0 <= j < s0.len() && s0[j].0 == k2);
            assert(j != i);
            if j < i {
                assert(s1[j].0 == k2 && s1[j].1 == s0[j].1);
                lemma_kseq_index_unique(s1, k2, j);
            } else {
                assert(s1[j - 1].0 == k2 && s1[j - 1].1 == s0[j].1);
                lemma_kseq_index_unique(s1, k2, j - 1);
            }
            lemma_kseq_index_unique(s0, k2, j);
        } else if kseq_contains(s1, k2) {
            let j = kseq_index_of(s1, k2);
            assert(0 <= j < s1.len() && s1[j].0 == k2);
            if j < i {
                assert(s0[j].0 == k2);
            } else {
                assert(s0[j + 1].0 == k2);
            }
        }
    }
}

impl<V: Copy> OrderedMap<V> {
    /// A copy of the map; entries are copied one by one.
    pub fn duplicate(&self) -> (r: Self)
        ensures
            r.sq() =~= self.sq(),
    {
        let mut entries: Vec<(u64, V)> = Vec::new();
        let n = self.entries.len();
        let mut i: usize = 0;
        while i < n
            invariant
                n == self.sq().len(),
                i <= n,
                entries@ =~= self.sq().take(i as int),
            decreases n - i,
        {
            entries.push(self.entries[i]);
            i = i + 1;
        }
        OrderedMap { entries }
    }
}

} // verus!
