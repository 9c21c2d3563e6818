//! A small ordered map: entries kept in key order in one list.

use vstd::prelude::*;

verus! {

/// A key whose values are totally ordered.
pub trait Key: View + Sized {
    /// Whether one key comes strictly before another.
    spec fn before(a: Self::V, b: Self::V) -> bool;

    proof fn irreflexive(a: Self::V)
        ensures
            !Self::before(a, a),
    ;

    proof fn transitive(a: Self::V, b: Self::V, c: Self::V)
        requires
            Self::before(a, b),
            Self::before(b, c),
        ensures
            Self::before(a, c),
    ;

    proof fn total(a: Self::V, b: Self::V)
        ensures
            a == b || Self::before(a, b) || Self::before(b, a),
    ;

    fn is_before(&self, other: &Self) -> (r: bool)
        ensures
            r == Self::before(self@, other@),
    ;
}

/// Entries in strictly increasing key order.
pub open spec fn in_order<K: Key, T>(entries: Seq<(K, T)>) -> bool {
    forall|i: int, j: int|
        #![trigger entries[i], entries[j]]
        0 <= i < j < entries.len() ==> K::before(entries[i].0@, entries[j].0@)
}

/// Whether some entry carries this key.
pub open spec fn has_key<K: Key, T>(entries: Seq<(K, T)>, k: K::V) -> bool {
    exists|i: int| 0 <= i < entries.len() && (#[trigger] entries[i]).0@ == k
}

/// The value filed under a key that is present.
pub open spec fn value_at<K: Key, T>(entries: Seq<(K, T)>, k: K::V) -> T {
    entries[choose|i: int| 0 <= i < entries.len() && (#[trigger] entries[i]).0@ == k].1
}

/// A map from keys to values, listed in key order.
#[derive(Clone, Debug)]
pub struct Sorted<K, T> {
    entries: Vec<(K, T)>,
}

impl<K, T> Sorted<K, T> {
    /// The entries, in the order they are kept.
    pub closed spec fn listed(&self) -> Seq<(K, T)> {
        self.entries@
    }

    /// The entry at a position.
    pub fn entry(&self, i: usize) -> (r: &(K, T))
        requires
            i < self.listed().len(),
        ensures
            *r == self.listed()[i as int],
    {
        &self.entries[i]
    }
}

impl<K: Key, T> View for Sorted<K, T> {
    type V = Map<K::V, T>;

    open spec fn view(&self) -> Map<K::V, T> {
        Map::new(
            |k: K::V| has_key(self.listed(), k),
            |k: K::V| value_at(self.listed(), k),
        )
    }
}

impl<K: Key, T> Sorted<K, T> {
    /// The entries are in strictly increasing key order, so no key occurs twice.
    pub open spec fn wf(&self) -> bool {
        in_order(self.listed())
    }

    /// An entry is what its key maps to.
    pub proof fn lemma_entry(&self, i: int)
        requires
            self.wf(),
            0 <= i < self.listed().len(),
        ensures
            self@.dom().contains(self.listed()[i].0@),
            self@[self.listed()[i].0@] == self.listed()[i].1,
    {
        let k = self.listed()[i].0@;
        let j = choose|j: int| 0 <= j < self.listed().len() && (#[trigger] self.listed()[j]).0@ == k;
        K::irreflexive(k);
        assert(i == j);
    }

    /// Distinct positions hold distinct keys.
    pub proof fn lemma_distinct(&self, i: int, j: int)
        requires
            self.wf(),
            0 <= i < self.listed().len(),
            0 <= j < self.listed().len(),
            self.listed()[i].0@ == self.listed()[j].0@,
        ensures
            i == j,
    {
        K::irreflexive(self.listed()[i].0@);
    }

    /// The list is exactly as long as the map is large.
    pub proof fn lemma_len(&self)
        requires
            self.wf(),
        ensures
            self@.dom().finite(),
            self@.dom().len() == self.listed().len(),
    {
        let keys = self.listed().map_values(|e: (K, T)| e.0@);
        assert(keys.no_duplicates()) by {
            assert forall|i: int, j: int|
                0 <= i < keys.len() && 0 <= j < keys.len() && i != j implies keys[i] != keys[j] by {
                if keys[i] == keys[j] {
                    self.lemma_distinct(i, j);
                }
            }
        }
        keys.unique_seq_to_set();
        assert(self@.dom() =~= keys.to_set()) by {
            assert forall|k: K::V| self@.dom().contains(k) implies keys.to_set().contains(k) by {
                let i = choose|i: int|
                    0 <= i < self.listed().len() && (#[trigger] self.listed()[i]).0@ == k;
                assert(keys[i] == k);
            }
            assert forall|k: K::V| keys.to_set().contains(k) implies self@.dom().contains(k) by {
                let i = choose|i: int| 0 <= i < keys.len() && keys[i] == k;
                assert(self.listed()[i].0@ == k);
            }
        }
        vstd::seq_lib::seq_to_set_is_finite(keys);
    }

    pub fn new() -> (r: Self)
        ensures
            r.wf(),
            r@ == Map::<K::V, T>::empty(),
            r.listed().len() == 0,
    {
        let r = Sorted { entries: Vec::new() };
        assert(r@ =~= Map::<K::V, T>::empty());
        r
    }

    /// How many entries there are.
    pub fn len(&self) -> (n: usize)
        requires
            self.wf(),
        ensures
            n == self@.dom().len(),
            n == self.listed().len(),
    {
        proof {
            self.lemma_len();
        }
        self.entries.len()
    }

    /// The position of a key, or the position it would be put at.
    pub fn seek(&self, k: &K) -> (r: (usize, bool))
        requires
            self.wf(),
        ensures
            r.0 <= self.listed().len(),
            r.1 == self@.dom().contains(k@),
            r.1 ==> r.0 < self.listed().len() && self.listed()[r.0 as int].0@ == k@,
            forall|i: int|
                0 <= i < r.0 ==> K::before((#[trigger] self.listed()[i]).0@, k@),
            forall|i: int|
                r.0 <= i < self.listed().len() && !(r.1 && i == r.0) ==> K::before(
                    k@,
                    (#[trigger] self.listed()[i]).0@,
                ),
    {
        let mut i: usize = 0;
        while i < self.entries.len() && self.entries[i].0.is_before(k)
            invariant
                i <= self.entries.len(),
                forall|j: int| 0 <= j < i ==> K::before((#[trigger] self.listed()[j]).0@, k@),
            decreases self.entries.len() - i,
        {
            i += 1;
        }
        if i < self.entries.len() && !k.is_before(&self.entries[i].0) {
            proof {
                K::total(k@, self.listed()[i as int].0@);
                self.lemma_entry(i as int);
                assert forall|j: int| i < j < self.listed().len() implies K::before(
                    k@,
                    (#[trigger] self.listed()[j]).0@,
                ) by {
                    assert(K::before(self.listed()[i as int].0@, self.listed()[j].0@));
                }
            }
            (i, true)
        } else {
            proof {
                assert forall|j: int| i <= j < self.listed().len() implies K::before(
                    k@,
                    (#[trigger] self.listed()[j]).0@,
                ) by {
                    if j > i {
                        K::transitive(k@, self.listed()[i as int].0@, self.listed()[j].0@);
                    }
                }
                if self@.dom().contains(k@) {
                    let j = choose|j: int|
                        0 <= j < self.listed().len() && (#[trigger] self.listed()[j]).0@ == k@;
                    K::irreflexive(k@);
                }
            }
            (i, false)
        }
    }

    /// The value under a key.
    pub fn get(&self, k: &K) -> (r: Option<&T>)
        requires
            self.wf(),
        ensures
            r == (if self@.dom().contains(k@) { Some(&self@[k@]) } else { None }),
    {
        let (i, found) = self.seek(k);
        if found {
            proof {
                self.lemma_entry(i as int);
            }
            Some(&self.entries[i].1)
        } else {
            None
        }
    }

    /// Files a value under a key, replacing what was there.
    pub fn insert(&mut self, k: K, v: T)
        requires
            old(self).wf(),
        ensures
            final(self).wf(),
            final(self)@ == old(self)@.insert(k@, v),
    {
        let (i, found) = self.seek(&k);
        let ghost before = *self;
        if found {
            self.entries.set(i, (k, v));
            proof {
                assert(self.wf());
                let after = *self;
                assert forall|q: K::V| after@.dom().contains(q) <==> before@.insert(k@, v).dom().contains(q) by {
                    if after@.dom().contains(q) {
                        let j = choose|j: int|
                            0 <= j < after.listed().len() && (#[trigger] after.listed()[j]).0@ == q;
                        if j != i {
                            assert(before.listed()[j].0@ == q);
                        }
                    }
                    if before@.dom().contains(q) {
                        let j = choose|j: int|
                            0 <= j < before.listed().len() && (#[trigger] before.listed()[j]).0@ == q;
                        assert(after.listed()[j].0@ == q);
                    }
                    if q == k@ {
                        assert(after.listed()[i as int].0@ == q);
                    }
                }
                assert forall|q: K::V| after@.dom().contains(q) implies after@[q] == before@.insert(k@, v)[q] by {
                    let j = choose|j: int|
                        0 <= j < after.listed().len() && (#[trigger] after.listed()[j]).0@ == q;
                    after.lemma_entry(j);
                    if j == i {
                        assert(q == k@);
                    } else {
                        assert(before.listed()[j] == after.listed()[j]);
                        before.lemma_entry(j);
                        K::irreflexive(k@);
                        before.lemma_entry(i as int);
                        if q == k@ {
                            before.lemma_distinct(i as int, j);
                        }
                    }
                }
                assert(after@ =~= before@.insert(k@, v));
            }
        } else {
            self.entries.insert(i, (k, v));
            proof {
                let after = *self;
                let m = i as int;
                assert(after.listed()[m] == (k, v));
                assert(forall|j: int| 0 <= j < m ==> after.listed()[j] == before.listed()[j]);
                assert(forall|j: int|
                    m < j < after.listed().len() ==> after.listed()[j] == before.listed()[j - 1]);
                assert(after.wf());
                assert forall|q: K::V| after@.dom().contains(q) <==> before@.insert(k@, v).dom().contains(q) by {
                    if after@.dom().contains(q) {
                        let j = choose|j: int|
                            0 <= j < after.listed().len() && (#[trigger] after.listed()[j]).0@ == q;
                        if j < m {
                            assert(before.listed()[j].0@ == q);
                        } else if j > m {
                            assert(before.listed()[j - 1].0@ == q);
                        }
                    }
                    if before@.dom().contains(q) {
                        let j = choose|j: int|
                            0 <= j < before.listed().len() && (#[trigger] before.listed()[j]).0@ == q;
                        if j < m {
                            assert(after.listed()[j].0@ == q);
                        } else {
                            assert(after.listed()[j + 1].0@ == q);
                        }
                    }
                    if q == k@ {
                        assert(after.listed()[m].0@ == q);
                    }
                }
                assert forall|q: K::V| after@.dom().contains(q) implies after@[q] == before@.insert(k@, v)[q] by {
                    let j = choose|j: int|
                        0 <= j < after.listed().len() && (#[trigger] after.listed()[j]).0@ == q;
                    after.lemma_entry(j);
                    K::irreflexive(k@);
                    if j < m {
                        before.lemma_entry(j);
                    } else if j > m {
                        before.lemma_entry(j - 1);
                    }
                }
                assert(after@ =~= before@.insert(k@, v));
            }
        }
    }

    /// Removes the entry at a position.
    pub fn remove_at(&mut self, i: usize)
        requires
            old(self).wf(),
            i < old(self).listed().len(),
        ensures
            final(self).wf(),
            final(self)@ == old(self)@.remove(old(self).listed()[i as int].0@),
            final(self).listed() == old(self).listed().remove(i as int),
    {
        let ghost before = *self;
        let ghost k = before.listed()[i as int].0@;
        let _gone = self.entries.remove(i);
        proof {
            let after = *self;
            let m = i as int;
            assert(after.wf());
            assert forall|q: K::V| after@.dom().contains(q) <==> before@.remove(k).dom().contains(q) by {
                if after@.dom().contains(q) {
                    let j = choose|j: int|
                        0 <= j < after.listed().len() && (#[trigger] after.listed()[j]).0@ == q;
                    if j < m {
                        assert(before.listed()[j].0@ == q);
                        if q == k {
                            before.lemma_distinct(j, m);
                        }
                    } else {
                        assert(before.listed()[j + 1].0@ == q);
                        if q == k {
                            before.lemma_distinct(j + 1, m);
                        }
                    }
                }
                if before@.remove(k).dom().contains(q) {
                    let j = choose|j: int|
                        0 <= j < before.listed().len() && (#[trigger] before.listed()[j]).0@ == q;
                    if j < m {
                        assert(after.listed()[j].0@ == q);
                    } else {
                        assert(after.listed()[j - 1].0@ == q);
                    }
                }
            }
            assert forall|q: K::V| after@.dom().contains(q) implies after@[q] == before@.remove(k)[q] by {
                let j = choose|j: int|
                    0 <= j < after.listed().len() && (#[trigger] after.listed()[j]).0@ == q;
                after.lemma_entry(j);
                if j < m {
                    before.lemma_entry(j);
                } else {
                    before.lemma_entry(j + 1);
                }
            }
            assert(after@ =~= before@.remove(k));
        }
    }

    /// Removes a key, saying whether it was there.
    pub fn remove(&mut self, k: &K) -> (found: bool)
        requires
            old(self).wf(),
        ensures
            final(self).wf(),
            found == old(self)@.dom().contains(k@),
            final(self)@ == old(self)@.remove(k@),
    {
        let (i, found) = self.seek(k);
        if found {
            self.remove_at(i);
        } else {
            assert(self@ =~= self@.remove(k@));
        }
        found
    }
}

impl Key for u32 {
    open spec fn before(a: u32, b: u32) -> bool {
        a < b
    }

    proof fn irreflexive(a: u32) {
    }

    proof fn transitive(a: u32, b: u32, c: u32) {
    }

    proof fn total(a: u32, b: u32) {
    }

    fn is_before(&self, other: &u32) -> (r: bool) {
        *self < *other
    }
}

impl Key for String {
    open spec fn before(a: Seq<char>, b: Seq<char>) -> bool {
        crate::text::bytes_before(crate::text::bytes(a), crate::text::bytes(b))
    }

    proof fn irreflexive(a: Seq<char>) {
        crate::text::lemma_bytes_before_irreflexive(crate::text::bytes(a));
    }

    proof fn transitive(a: Seq<char>, b: Seq<char>, c: Seq<char>) {
        crate::text::lemma_bytes_before_transitive(
            crate::text::bytes(a),
            crate::text::bytes(b),
            crate::text::bytes(c),
        );
    }

    proof fn total(a: Seq<char>, b: Seq<char>) {
        crate::text::lemma_bytes_before_total(crate::text::bytes(a), crate::text::bytes(b));
        if crate::text::bytes(a) == crate::text::bytes(b) {
            crate::text::lemma_bytes_injective(a, b);
        }
    }

    fn is_before(&self, other: &String) -> (r: bool) {
        crate::text::precedes(self.as_str(), other.as_str())
    }
}

} // verus!
