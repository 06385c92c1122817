//! Small association containers over byte-string keys, with `Map` and
//! `Set` views. They stand where the original state used hash maps:
//! lookup is linear, which costs nothing the contracts care about.

use vstd::prelude::*;

verus! {

/// A key that can say, in executable code, whether it equals another.
pub trait MapKey: View + Sized {
    fn key_eq(&self, other: &Self) -> (r: bool)
        ensures
            r == (self@ == other@),
    ;
}

/// The map a list of entries denotes; later entries win.
pub open spec fn entries_map<K: View, V>(s: Seq<(K, V)>) -> Map<K::V, V>
    decreases s.len(),
{
    if s.len() == 0 {
        Map::empty()
    } else {
        entries_map(s.drop_last()).insert(s.last().0@, s.last().1)
    }
}

/// The set a list of elements denotes.
pub open spec fn elems_set<K: View>(s: Seq<K>) -> Set<K::V>
    decreases s.len(),
{
    if s.len() == 0 {
        Set::empty()
    } else {
        elems_set(s.drop_last()).insert(s.last()@)
    }
}

pub open spec fn keys_unique<K: View, V>(s: Seq<(K, V)>) -> bool {
    forall|i: int, j: int| 0 <= i < j < s.len() ==> s[i].0@ != s[j].0@
}

pub proof fn lemma_entries_map<K: View, V>(s: Seq<(K, V)>)
    ensures
        forall|k: K::V| entries_map(s).contains_key(k)
            ==> exists|i: int| 0 <= i < s.len() && s[i].0@ == k,
        keys_unique(s) ==> forall|i: int| #![trigger s[i]] 0 <= i < s.len()
            ==> entries_map(s).contains_key(s[i].0@) && entries_map(s)[s[i].0@] == s[i].1,
    decreases s.len(),
{
    if s.len() > 0 {
        lemma_entries_map(s.drop_last());
        assert forall|k: K::V| entries_map(s).contains_key(k)
            implies exists|i: int| 0 <= i < s.len() && s[i].0@ == k by {
            if k == s.last().0@ {
                assert(s[s.len() - 1].0@ == k);
            } else {
                assert(entries_map(s.drop_last()).contains_key(k));
                let i = choose|i: int| 0 <= i < s.drop_last().len() && s.drop_last()[i].0@ == k;
                assert(s[i].0@ == k);
            }
        }
        if keys_unique(s) {
            assert(keys_unique(s.drop_last())) by {
                assert(forall|i: int, j: int| 0 <= i < j < s.drop_last().len()
                    ==> s.drop_last()[i] == s[i] && s.drop_last()[j] == s[j]);
            }
            assert forall|i: int| #![trigger s[i]] 0 <= i < s.len()
                implies entries_map(s).contains_key(s[i].0@) && entries_map(s)[s[i].0@] == s[i].1 by {
                if i == s.len() - 1 {
                } else {
                    assert(s.drop_last()[i] == s[i]);
                    assert(s[i].0@ != s[s.len() - 1].0@);
                }
            }
        }
    }
}

pub proof fn lemma_entries_map_update<K: View, V>(s: Seq<(K, V)>, i: int, e: (K, V))
    requires
        keys_unique(s),
        0 <= i < s.len(),
        e.0@ == s[i].0@,
    ensures
        entries_map(s.update(i, e)) == entries_map(s).insert(e.0@, e.1),
    decreases s.len(),
{
    lemma_entries_map(s);
    lemma_entries_map(s.update(i, e));
    assert(keys_unique(s.update(i, e))) by {
        assert(forall|t: int| 0 <= t < s.len() && t != i ==> s.update(i, e)[t] == s[t]);
    }
    let m1 = entries_map(s.update(i, e));
    let m2 = entries_map(s).insert(e.0@, e.1);
    assert forall|k: K::V| m1.contains_key(k) implies m2.contains_key(k) && m1[k] == m2[k] by {
        let t = choose|t: int| 0 <= t < s.len() && s.update(i, e)[t].0@ == k;
        if t == i {
            assert(m1[k] == e.1);
        } else {
            assert(s[t].0@ == k);
            assert(k != s[i].0@);
            assert(m1[k] == s[t].1);
            assert(m2[k] == s[t].1);
        }
    }
    assert forall|k: K::V| m2.contains_key(k) implies m1.contains_key(k) by {
        if k == e.0@ {
            assert(s.update(i, e)[i].0@ == k);
        } else {
            let t = choose|t: int| 0 <= t < s.len() && s[t].0@ == k;
            assert(s.update(i, e)[t].0@ == k);
        }
    }
    assert(m1 =~= m2);
}

pub proof fn lemma_entries_map_remove<K: View, V>(s: Seq<(K, V)>, i: int)
    requires
        keys_unique(s),
        0 <= i < s.len(),
    ensures
        entries_map(s.remove(i)) == entries_map(s).remove(s[i].0@),
{
    lemma_entries_map(s);
    lemma_entries_map(s.remove(i));
    assert(keys_unique(s.remove(i))) by {
        assert(forall|t: int| 0 <= t < s.len() - 1
            ==> s.remove(i)[t] == (if t < i { s[t] } else { s[t + 1] }));
    }
    let m1 = entries_map(s.remove(i));
    let m2 = entries_map(s).remove(s[i].0@);
    assert forall|k: K::V| m1.contains_key(k) implies m2.contains_key(k) && m1[k] == m2[k] by {
        let t = choose|t: int| 0 <= t < s.remove(i).len() && s.remove(i)[t].0@ == k;
        let u = if t < i { t } else { t + 1 };
        assert(s[u] == s.remove(i)[t]);
        assert(k != s[i].0@);
        assert(m1[k] == s.remove(i)[t].1);
    }
    assert forall|k: K::V| m2.contains_key(k) implies m1.contains_key(k) by {
        let t = choose|t: int| 0 <= t < s.len() && s[t].0@ == k;
        assert(t != i);
        let u = if t < i { t } else { t - 1 };
        assert(s.remove(i)[u] == s[t]);
    }
    assert(m1 =~= m2);
}

pub proof fn lemma_elems_set<K: View>(s: Seq<K>)
    ensures
        forall|i: int| #![trigger s[i]] 0 <= i < s.len() ==> elems_set(s).contains(s[i]@),
        forall|k: K::V| elems_set(s).contains(k)
            ==> exists|i: int| 0 <= i < s.len() && s[i]@ == k,
    decreases s.len(),
{
    if s.len() > 0 {
        lemma_elems_set(s.drop_last());
        assert(forall|i: int| 0 <= i < s.len() - 1 ==> s.drop_last()[i] == s[i]);
        assert forall|k: K::V| elems_set(s).contains(k)
            implies exists|i: int| 0 <= i < s.len() && s[i]@ == k by {
            if k == s.last()@ {
                assert(s[s.len() - 1]@ == k);
            } else {
                assert(elems_set(s.drop_last()).contains(k));
                let i = choose|i: int| 0 <= i < s.drop_last().len() && s.drop_last()[i]@ == k;
                assert(s.drop_last()[i] == s[i]);
                assert(s[i]@ == k);
            }
        }
    }
}

pub proof fn lemma_elems_set_remove<K: View>(s: Seq<K>, i: int)
    requires
        forall|a: int, b: int| 0 <= a < b < s.len() ==> s[a]@ != s[b]@,
        0 <= i < s.len(),
    ensures
        elems_set(s.remove(i)) == elems_set(s).remove(s[i]@),
{
    lemma_elems_set(s);
    lemma_elems_set(s.remove(i));
    assert(forall|t: int| 0 <= t < s.len() - 1
        ==> s.remove(i)[t] == (if t < i { s[t] } else { s[t + 1] }));
    let m1 = elems_set(s.remove(i));
    let m2 = elems_set(s).remove(s[i]@);
    assert forall|k: K::V| m1.contains(k) implies m2.contains(k) by {
        let t = choose|t: int| 0 <= t < s.remove(i).len() && s.remove(i)[t]@ == k;
        let u = if t < i { t } else { t + 1 };
        assert(s[u]@ == k);
        assert(k != s[i]@);
    }
    assert forall|k: K::V| m2.contains(k) implies m1.contains(k) by {
        let t = choose|t: int| 0 <= t < s.len() && s[t]@ == k;
        assert(t != i);
        let u = if t < i { t } else { t - 1 };
        assert(s.remove(i)[u]@ == k);
    }
    assert(m1 =~= m2);
}

/// An association list with unique keys, seen as a `Map`.
pub struct KvMap<K, V> {
    pub entries: Vec<(K, V)>,
}

impl<K: MapKey, V> View for KvMap<K, V> {
    type V = Map<K::V, V>;

    open spec fn view(&self) -> Map<K::V, V> {
        entries_map(self.entries@)
    }
}

impl<K: MapKey, V> KvMap<K, V> {
    pub open spec fn wf(&self) -> bool {
        keys_unique(self.entries@)
    }

    pub fn new() -> (r: KvMap<K, V>)
        ensures
            r@ == Map::<K::V, V>::empty(),
            r.wf(),
            r.entries@.len() == 0,
    {
        KvMap { entries: Vec::new() }
    }

    pub fn len(&self) -> (r: usize)
        ensures
            r == self.entries@.len(),
    {
        self.entries.len()
    }

    fn find(&self, key: &K) -> (r: Option<usize>)
        requires
            self.wf(),
        ensures
            match r {
                Some(i) => i < self.entries@.len() && self.entries@[i as int].0@ == key@
                    && self@.contains_key(key@) && self@[key@] == self.entries@[i as int].1,
                None => !self@.contains_key(key@),
            },
    {
        proof {
            lemma_entries_map(self.entries@);
        }
        let n = self.entries.len();
        let mut i: usize = 0;
        while i < n
            invariant
                i <= n,
                n == self.entries@.len(),
                self.wf(),
                forall|t: int| #![trigger self.entries@[t]] 0 <= t < i ==> self.entries@[t].0@ != key@,
            decreases n - i,
        {
            if self.entries[i].0.key_eq(key) {
                proof {
                    lemma_entries_map(self.entries@);
                }
                return Some(i);
            }
            i += 1;
        }
        proof {
            lemma_entries_map(self.entries@);
            if self@.contains_key(key@) {
                let t = choose|t: int| 0 <= t < self.entries@.len() && self.entries@[t].0@ == key@;
                assert(false);
            }
        }
        None
    }

    pub fn contains_key(&self, key: &K) -> (r: bool)
        requires
            self.wf(),
        ensures
            r == self@.contains_key(key@),
    {
        self.find(key).is_some()
    }

    pub fn get(&self, key: &K) -> (r: Option<&V>)
        requires
            self.wf(),
        ensures
            match r {
                Some(v) => self@.contains_key(key@) && *v == self@[key@],
                None => !self@.contains_key(key@),
            },
    {
        match self.find(key) {
            Some(i) => Some(&self.entries[i].1),
            None => None,
        }
    }

    pub fn insert(&mut self, key: K, value: V)
        requires
            old(self).wf(),
        ensures
            final(self).wf(),
            final(self)@ == old(self)@.insert(key@, value),
            final(self)@.dom() == old(self)@.dom().insert(key@),
            final(self).entries@.len() <= old(self).entries@.len() + 1,
    {
        let ghost oldmap = self@;
        match self.find(&key) {
            Some(i) => {
                proof {
                    lemma_entries_map_update(self.entries@, i as int, (key, value));
                }
                self.entries[i] = (key, value);
                proof {
                    assert(keys_unique(self.entries@)) by {
                        assert(forall|t: int| 0 <= t < self.entries@.len() && t != i
                            ==> self.entries@[t] == old(self).entries@[t]);
                    }
                }
            },
            None => {
                self.entries.push((key, value));
                proof {
                    assert(self.entries@.drop_last() =~= old(self).entries@);
                    assert(keys_unique(self.entries@)) by {
                        lemma_entries_map(old(self).entries@);
                        assert(forall|t: int| 0 <= t < self.entries@.len() - 1
                            ==> self.entries@[t] == old(self).entries@[t]);
                        if !keys_unique(self.entries@) {
                            let (a, b) = choose|a: int, b: int| 0 <= a < b < self.entries@.len()
                                && self.entries@[a].0@ == self.entries@[b].0@;
                            assert(b == self.entries@.len() - 1);
                            assert(old(self).entries@[a].0@ == key@);
                            assert(oldmap.contains_key(key@));
                        }
                    }
                }
            },
        }
        proof {
            assert(final(self)@.dom() =~= old(self)@.dom().insert(key@));
        }
    }

    pub fn remove(&mut self, key: &K)
        requires
            old(self).wf(),
        ensures
            final(self).wf(),
            final(self)@ == old(self)@.remove(key@),
            final(self).entries@.len() <= old(self).entries@.len(),
    {
        match self.find(key) {
            Some(i) => {
                proof {
                    lemma_entries_map_remove(self.entries@, i as int);
                    assert(keys_unique(self.entries@.remove(i as int))) by {
                        assert(forall|t: int| 0 <= t < self.entries@.len() - 1
                            ==> self.entries@.remove(i as int)[t]
                                == (if t < i { self.entries@[t] } else { self.entries@[t + 1] }));
                    }
                }
                self.entries.remove(i);
            },
            None => {
                proof {
                    assert(final(self)@ =~= old(self)@.remove(key@));
                }
            },
        }
    }
}

impl<K: MapKey + Copy, V: Copy> KvMap<K, V> {
    /// A copy holding the same entries.
    pub fn duplicate(&self) -> (r: KvMap<K, V>)
        requires
            self.wf(),
        ensures
            r.wf(),
            r@ == self@,
            r.entries@ == self.entries@,
    {
        let mut entries: Vec<(K, V)> = Vec::new();
        let n = self.entries.len();
        let mut i: usize = 0;
        while i < n
            invariant
                i <= n,
                n == self.entries@.len(),
                entries@ =~= self.entries@.take(i as int),
            decreases n - i,
        {
            entries.push(self.entries[i]);
            i += 1;
        }
        proof {
            assert(entries@ =~= self.entries@);
        }
        KvMap { entries }
    }
}

/// A list of distinct elements, seen as a `Set`.
pub struct KeySet<K> {
    pub elems: Vec<K>,
}

impl<K: MapKey> View for KeySet<K> {
    type V = Set<K::V>;

    open spec fn view(&self) -> Set<K::V> {
        elems_set(self.elems@)
    }
}

impl<K: MapKey> KeySet<K> {
    pub open spec fn wf(&self) -> bool {
        forall|i: int, j: int| 0 <= i < j < self.elems@.len() ==> self.elems@[i]@ != self.elems@[j]@
    }

    pub fn new() -> (r: KeySet<K>)
        ensures
            r@ == Set::<K::V>::empty(),
            r.wf(),
            r.elems@.len() == 0,
    {
        KeySet { elems: Vec::new() }
    }

    pub fn len(&self) -> (r: usize)
        ensures
            r == self.elems@.len(),
    {
        self.elems.len()
    }

    pub fn contains(&self, key: &K) -> (r: bool)
        requires
            self.wf(),
        ensures
            r == self@.contains(key@),
    {
        proof {
            lemma_elems_set(self.elems@);
        }
        let n = self.elems.len();
        let mut i: usize = 0;
        while i < n
            invariant
                i <= n,
                n == self.elems@.len(),
                forall|t: int| #![trigger self.elems@[t]] 0 <= t < i ==> self.elems@[t]@ != key@,
            decreases n - i,
        {
            if self.elems[i].key_eq(key) {
                proof {
                    lemma_elems_set(self.elems@);
                }
                return true;
            }
            i += 1;
        }
        proof {
            if self@.contains(key@) {
                lemma_elems_set(self.elems@);
                let t = choose|t: int| 0 <= t < self.elems@.len() && self.elems@[t]@ == key@;
                assert(false);
            }
        }
        false
    }

    /// Insert; the result says whether the element was new.
    pub fn insert(&mut self, key: K) -> (was_new: bool)
        requires
            old(self).wf(),
        ensures
            final(self).wf(),
            final(self)@ == old(self)@.insert(key@),
            was_new == !old(self)@.contains(key@),
            final(self).elems@.len() <= old(self).elems@.len() + 1,
    {
        if self.contains(&key) {
            proof {
                assert(final(self)@ =~= old(self)@.insert(key@));
            }
            false
        } else {
            let ghost oldelems = self.elems@;
            self.elems.push(key);
            proof {
                assert(self.elems@.drop_last() =~= oldelems);
                lemma_elems_set(oldelems);
                assert(self.wf()) by {
                    assert(forall|t: int| 0 <= t < self.elems@.len() - 1
                        ==> self.elems@[t] == oldelems[t]);
                    if !self.wf() {
                        let (a, b) = choose|a: int, b: int| 0 <= a < b < self.elems@.len()
                            && self.elems@[a]@ == self.elems@[b]@;
                        assert(b == self.elems@.len() - 1);
                        assert(old(self)@.contains(key@));
                    }
                }
            }
            true
        }
    }

    /// Remove an element, if present.
    pub fn remove(&mut self, key: &K)
        requires
            old(self).wf(),
        ensures
            final(self).wf(),
            final(self)@ == old(self)@.remove(key@),
    {
        proof {
            lemma_elems_set(self.elems@);
        }
        let n = self.elems.len();
        let mut i: usize = 0;
        while i < n
            invariant
                i <= n,
                n == self.elems@.len(),
                self.wf(),
                *self == *old(self),
                forall|t: int| #![trigger self.elems@[t]] 0 <= t < i ==> self.elems@[t]@ != key@,
            decreases n - i,
        {
            if self.elems[i].key_eq(key) {
                proof {
                    lemma_elems_set_remove(self.elems@, i as int);
                    assert(forall|a: int| 0 <= a < self.elems@.len() - 1
                        ==> self.elems@.remove(i as int)[a]
                            == (if a < i { self.elems@[a] } else { self.elems@[a + 1] }));
                }
                let ghost before = self.elems@;
                proof {
                    assert(before == old(self).elems@);
                    assert(elems_set(before) == old(self)@);
                }
                self.elems.remove(i);
                proof {
                    assert(self.elems@ == before.remove(i as int));
                    assert(self.wf()) by {
                        assert(forall|a: int| 0 <= a < self.elems@.len()
                            ==> self.elems@[a] == (if a < i { before[a] } else { before[a + 1] }));
                    }
                    assert(self@ == elems_set(before.remove(i as int)));
                    assert(elems_set(before.remove(i as int)) == elems_set(before).remove(
                        before[i as int]@,
                    ));
                    assert(before[i as int]@ == key@);
                    assert(self@ == old(self)@.remove(key@));
                }
                return;
            }
            i += 1;
        }
        proof {
            lemma_elems_set(self.elems@);
            assert(!self@.contains(key@)) by {
                if self@.contains(key@) {
                    let t = choose|t: int| 0 <= t < self.elems@.len() && self.elems@[t]@ == key@;
                    assert(false);
                }
            }
            assert(old(self)@.remove(key@) =~= old(self)@);
            assert(self@ == old(self)@.remove(key@));
        }
    }

    /// A copy holding the same elements.
    pub fn duplicate(&self) -> (r: KeySet<K>)
        where K: Copy
        requires
            self.wf(),
        ensures
            r.wf(),
            r@ == self@,
            r.elems@ == self.elems@,
    {
        let mut elems: Vec<K> = Vec::new();
        let n = self.elems.len();
        let mut i: usize = 0;
        while i < n
            invariant
                i <= n,
                n == self.elems@.len(),
                elems@ =~= self.elems@.take(i as int),
            decreases n - i,
        {
            elems.push(self.elems[i]);
            i += 1;
        }
        proof {
            assert(elems@ =~= self.elems@);
        }
        KeySet { elems }
    }

    pub fn key_at(&self, i: usize) -> (r: &K)
        requires
            i < self.elems@.len(),
        ensures
            *r == self.elems@[i as int],
            self@.contains(self.elems@[i as int]@),
    {
        proof {
            lemma_elems_set(self.elems@);
        }
        &self.elems[i]
    }
}

} // verus!
