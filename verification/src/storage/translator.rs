//! A durable key/value mapping, one record per key: point lookup, full key
//! enumeration, add (never overwrites), update (returns the previous value)
//! and delete (returns the removed value). The store is modelled as a map
//! from key views to values; the caller persists one file per record.

use vstd::prelude::*;

verus! {

/// The two ways a translation can fail: adding a key that is present, or
/// touching one that is absent.
#[derive(Debug, Clone, Copy, PartialEq, Eq, Structural)]
pub enum TranslationError {
    AlreadyExists,
    DoesNotExist,
}

/// A key a translator can be indexed by: comparable and copyable by view.
pub trait TranslationKey: View + Sized {
    fn key_eq(&self, other: &Self) -> (r: bool)
        ensures
            r == (self@ == other@),
    ;

    fn key_clone(&self) -> (r: Self)
        ensures
            r@ == self@,
    ;
}

impl TranslationKey for u64 {
    fn key_eq(&self, other: &Self) -> (r: bool)
        ensures
            r == (self@ == other@),
    {
        *self == *other
    }

    fn key_clone(&self) -> (r: Self)
        ensures
            r@ == self@,
    {
        *self
    }
}

impl TranslationKey for Vec<u8> {
    fn key_eq(&self, other: &Self) -> (r: bool)
        ensures
            r == (self@ == other@),
    {
        let mut i: usize = 0;
        if self.len() != other.len() {
            proof {
                assert(self@ != other@);
            }
            return false;
        }
        while i < self.len()
            invariant
                0 <= i <= self@.len(),
                self@.len() == other@.len(),
                forall|j: int| 0 <= j < i ==> self@[j] == other@[j],
            decreases self@.len() - i,
        {
            if self[i] != other[i] {
                return false;
            }
            i = i + 1;
        }
        proof {
            assert(self@ =~= other@);
        }
        true
    }

    fn key_clone(&self) -> (r: Self)
        ensures
            r@ == self@,
    {
        crate::storage::path_codec::clone_bytes(self)
    }
}

/// The map an entry list stands for, keyed by the entries' views.
pub open spec fn spec_entries_map<K: View, V>(s: Seq<(K, V)>) -> Map<<K as View>::V, V>
    decreases s.len(),
{
    if s.len() == 0 {
        Map::empty()
    } else {
        spec_entries_map(s.drop_last()).insert(s.last().0@, s.last().1)
    }
}

/// No two entries share a key view.
pub open spec fn spec_distinct_keys<K: View, V>(s: Seq<(K, V)>) -> bool {
    forall|i: int, j: int| 0 <= i < j < s.len() ==> (#[trigger] s[i]).0@ != (#[trigger] s[j]).0@
}

/// An entry's key is in the map, bound to that entry's value.
proof fn lemma_map_index<K: View, V>(s: Seq<(K, V)>, i: int)
    requires
        spec_distinct_keys(s),
        0 <= i < s.len(),
    ensures
        spec_entries_map(s).contains_key(s[i].0@),
        spec_entries_map(s)[s[i].0@] == s[i].1,
    decreases s.len(),
{
    if i < s.len() - 1 {
        assert(spec_distinct_keys(s.drop_last())) by {
            assert(forall|a: int, b: int|
                0 <= a < b < s.len() - 1 ==> s.drop_last()[a] == s[a] && s.drop_last()[b] == s[b]);
        }
        lemma_map_index(s.drop_last(), i);
        assert(s.drop_last()[i] == s[i]);
        assert(s[i].0@ != s.last().0@);
    }
}

/// A key view matching no entry is not in the map.
proof fn lemma_map_absent<K: View, V>(s: Seq<(K, V)>, k: <K as View>::V)
    requires
        forall|i: int| 0 <= i < s.len() ==> (#[trigger] s[i]).0@ != k,
    ensures
        !spec_entries_map(s).contains_key(k),
    decreases s.len(),
{
    if s.len() > 0 {
        assert(forall|i: int|
            0 <= i < s.len() - 1 ==> (#[trigger] s.drop_last()[i]).0@ == s[i].0@);
        lemma_map_absent(s.drop_last(), k);
    }
}

/// Every key in the map comes from some entry.
proof fn lemma_map_dom<K: View, V>(s: Seq<(K, V)>, k: <K as View>::V)
    requires
        spec_entries_map(s).contains_key(k),
    ensures
        exists|i: int| 0 <= i < s.len() && (#[trigger] s[i]).0@ == k,
    decreases s.len(),
{
    if s.len() > 0 {
        if s.last().0@ == k {
            assert(s[s.len() - 1].0@ == k);
        } else {
            lemma_map_dom(s.drop_last(), k);
            let i = choose|i: int| 0 <= i < s.len() - 1 && (#[trigger] s.drop_last()[i]).0@ == k;
            assert(s[i].0@ == k);
        }
    }
}

/// Removing the entry at `i` removes exactly its key from the map.
proof fn lemma_map_remove<K: View, V>(s: Seq<(K, V)>, i: int)
    requires
        spec_distinct_keys(s),
        0 <= i < s.len(),
    ensures
        spec_entries_map(s.remove(i)) == spec_entries_map(s).remove(s[i].0@),
        spec_distinct_keys(s.remove(i)),
    decreases s.len(),
{
    assert(spec_distinct_keys(s.remove(i))) by {
        assert(forall|a: int|
            0 <= a < s.len() - 1 ==> #[trigger] s.remove(i)[a] == (if a < i {
                s[a]
            } else {
                s[a + 1]
            }));
    }
    assert(spec_distinct_keys(s.drop_last())) by {
        assert(forall|a: int|
            0 <= a < s.len() - 1 ==> (#[trigger] s.drop_last()[a]) == s[a]);
    }
    if i == s.len() - 1 {
        assert(s.remove(i) =~= s.drop_last());
        assert(forall|a: int| 0 <= a < s.len() - 1 ==> (#[trigger] s[a]).0@ != s[i].0@);
        lemma_map_absent(s.drop_last(), s[i].0@);
        assert(spec_entries_map(s.drop_last()) =~= spec_entries_map(s.drop_last()).insert(
            s.last().0@,
            s.last().1,
        ).remove(s[i].0@));
    } else {
        lemma_map_remove(s.drop_last(), i);
        assert(s.drop_last()[i] == s[i]);
        assert(s.remove(i).drop_last() =~= s.drop_last().remove(i));
        assert(s.remove(i).last() == s.last());
        assert(s.remove(i).len() > 0);
        assert(spec_entries_map(s.remove(i)) == spec_entries_map(s.drop_last().remove(i)).insert(
            s.last().0@,
            s.last().1,
        ));
        assert(s[i].0@ != s.last().0@);
        assert(spec_entries_map(s.drop_last()).remove(s[i].0@).insert(s.last().0@, s.last().1)
            =~= spec_entries_map(s.drop_last()).insert(s.last().0@, s.last().1).remove(s[i].0@));
    }
}

/// Replacing the entry at `i` (same key) rebinds exactly that key.
proof fn lemma_map_update<K: View, V>(s: Seq<(K, V)>, i: int, e: (K, V))
    requires
        spec_distinct_keys(s),
        0 <= i < s.len(),
        e.0@ == s[i].0@,
    ensures
        spec_entries_map(s.update(i, e)) == spec_entries_map(s).insert(e.0@, e.1),
        spec_distinct_keys(s.update(i, e)),
    decreases s.len(),
{
    assert(spec_distinct_keys(s.update(i, e))) by {
        assert(forall|a: int|
            0 <= a < s.len() ==> (#[trigger] s.update(i, e)[a]).0@ == s[a].0@);
    }
    assert(spec_distinct_keys(s.drop_last())) by {
        assert(forall|a: int|
            0 <= a < s.len() - 1 ==> (#[trigger] s.drop_last()[a]) == s[a]);
    }
    if i == s.len() - 1 {
        assert(s.update(i, e).drop_last() =~= s.drop_last());
        assert(s.update(i, e).last() == e);
        assert(spec_entries_map(s.drop_last()).insert(e.0@, e.1) =~= spec_entries_map(
            s.drop_last(),
        ).insert(s.last().0@, s.last().1).insert(e.0@, e.1));
    } else {
        lemma_map_update(s.drop_last(), i, e);
        assert(s.drop_last()[i] == s[i]);
        assert(s.update(i, e).drop_last() =~= s.drop_last().update(i, e));
        assert(s.update(i, e).last() == s.last());
        assert(s.update(i, e).len() > 0);
        assert(e.0@ != s.last().0@);
        assert(spec_entries_map(s.drop_last()).insert(e.0@, e.1).insert(s.last().0@, s.last().1)
            =~= spec_entries_map(s.drop_last()).insert(s.last().0@, s.last().1).insert(
            e.0@,
            e.1,
        ));
    }
}

/// An in-memory translator: a list of records with pairwise distinct keys.
pub struct Translations<K, V> {
    entries: Vec<(K, V)>,
}

impl<K: TranslationKey, V> Translations<K, V> {
    /// The mapping this translator holds.
    pub closed spec fn spec_map(self) -> Map<<K as View>::V, V> {
        spec_entries_map(self.entries@)
    }

    /// Keys are pairwise distinct.
    pub closed spec fn wf(self) -> bool {
        spec_distinct_keys(self.entries@)
    }

    /// An empty translator.
    pub fn new() -> (r: Self)
        ensures
            r.wf(),
            r.spec_map() == Map::<<K as View>::V, V>::empty(),
    {
        Translations { entries: Vec::new() }
    }

    /// The position of `key`, when present.
    fn find_index(&self, key: &K) -> (r: Option<usize>)
        ensures
            match r {
                Some(i) => i < self.entries@.len() && self.entries@[i as int].0@ == key@,
                None => forall|i: int|
                    0 <= i < self.entries@.len() ==> (#[trigger] self.entries@[i]).0@ != key@,
            },
    {
        let mut i: usize = 0;
        while i < self.entries.len()
            invariant
                0 <= i <= self.entries@.len(),
                forall|j: int| 0 <= j < i ==> (#[trigger] self.entries@[j]).0@ != key@,
            decreases self.entries@.len() - i,
        {
            if self.entries[i].0.key_eq(key) {
                return Some(i);
            }
            i = i + 1;
        }
        None
    }

    /// Point lookup: `None` when the key is absent, never an error.
    pub fn translate(&self, key: &K) -> (r: Option<&V>)
        requires
            self.wf(),
        ensures
            match r {
                Some(v) => self.spec_map().contains_key(key@) && *v == self.spec_map()[key@],
                None => !self.spec_map().contains_key(key@),
            },
    {
        match self.find_index(key) {
            Some(i) => {
                proof {
                    lemma_map_index(self.entries@, i as int);
                }
                Some(&self.entries[i].1)
            },
            None => {
                proof {
                    lemma_map_absent(self.entries@, key@);
                }
                None
            },
        }
    }

    /// Every key, in unspecified order, each exactly once.
    pub fn keys(&self) -> (r: Vec<K>)
        requires
            self.wf(),
        ensures
            forall|k: <K as View>::V|
                self.spec_map().contains_key(k) <==> exists|i: int|
                    0 <= i < r@.len() && (#[trigger] r@[i])@ == k,
            forall|i: int, j: int| 0 <= i < j < r@.len() ==> (#[trigger] r@[i])@ != (#[trigger] r@[j])@,
    {
        let mut r: Vec<K> = Vec::new();
        let mut i: usize = 0;
        while i < self.entries.len()
            invariant
                0 <= i <= self.entries@.len(),
                r@.len() == i,
                forall|j: int| 0 <= j < i ==> (#[trigger] r@[j])@ == self.entries@[j].0@,
            decreases self.entries@.len() - i,
        {
            r.push(self.entries[i].0.key_clone());
            i = i + 1;
        }
        proof {
            assert forall|k: <K as View>::V|
                self.spec_map().contains_key(k) <==> exists|i: int|
                    0 <= i < r@.len() && (#[trigger] r@[i])@ == k by {
                if self.spec_map().contains_key(k) {
                    lemma_map_dom(self.entries@, k);
                    let w = choose|i: int|
                        0 <= i < self.entries@.len() && (#[trigger] self.entries@[i]).0@ == k;
                    assert(r@[w]@ == k);
                }
                if exists|i: int| 0 <= i < r@.len() && (#[trigger] r@[i])@ == k {
                    let w = choose|i: int| 0 <= i < r@.len() && (#[trigger] r@[i])@ == k;
                    lemma_map_index(self.entries@, w);
                }
            }
        }
        r
    }

    /// Adds a record; fails with `AlreadyExists` (changing nothing) when the
    /// key is present.
    pub fn add_translation(&mut self, key: K, value: V) -> (r: Result<(), TranslationError>)
        requires
            old(self).wf(),
        ensures
            final(self).wf(),
            match r {
                Ok(()) => !old(self).spec_map().contains_key(key@) && final(self).spec_map()
                    == old(self).spec_map().insert(key@, value),
                Err(e) => e == TranslationError::AlreadyExists && old(self).spec_map().contains_key(
                    key@,
                ) && *final(self) == *old(self),
            },
    {
        match self.find_index(&key) {
            Some(i) => {
                proof {
                    lemma_map_index(self.entries@, i as int);
                }
                Err(TranslationError::AlreadyExists)
            },
            None => {
                proof {
                    lemma_map_absent(self.entries@, key@);
                }
                let ghost pre = self.entries@;
                self.entries.push((key, value));
                proof {
                    assert(self.entries@.drop_last() =~= pre);
                    assert(spec_distinct_keys(self.entries@)) by {
                        assert(forall|a: int|
                            0 <= a < pre.len() ==> (#[trigger] self.entries@[a]) == pre[a]);
                    }
                }
                Ok(())
            },
        }
    }

    /// Replaces the value under a key; fails with `DoesNotExist` (changing
    /// nothing) when the key is absent. Returns the previous value.
    pub fn update_translation(&mut self, key: &K, new_value: V) -> (r: Result<
        V,
        TranslationError,
    >)
        requires
            old(self).wf(),
        ensures
            final(self).wf(),
            match r {
                Ok(prev) => old(self).spec_map().contains_key(key@) && prev == old(
                    self,
                ).spec_map()[key@] && final(self).spec_map() == old(self).spec_map().insert(
                    key@,
                    new_value,
                ),
                Err(e) => e == TranslationError::DoesNotExist && !old(
                    self,
                ).spec_map().contains_key(key@) && *final(self) == *old(self),
            },
    {
        match self.find_index(key) {
            Some(i) => {
                proof {
                    lemma_map_index(self.entries@, i as int);
                }
                let ghost pre = self.entries@;
                let (old_key, old_value) = self.entries.remove(i);
                self.entries.insert(i, (old_key, new_value));
                proof {
                    assert(self.entries@ =~= pre.update(
                        i as int,
                        (self.entries@[i as int].0, new_value),
                    ));
                    assert(self.entries@[i as int].0@ == key@);
                    lemma_map_update(
                        pre,
                        i as int,
                        (self.entries@[i as int].0, new_value),
                    );
                }
                Ok(old_value)
            },
            None => {
                proof {
                    lemma_map_absent(self.entries@, key@);
                }
                Err(TranslationError::DoesNotExist)
            },
        }
    }

    /// Removes a record; fails with `DoesNotExist` (changing nothing) when
    /// the key is absent. Returns the removed value.
    pub fn del_translation(&mut self, key: &K) -> (r: Result<V, TranslationError>)
        requires
            old(self).wf(),
        ensures
            final(self).wf(),
            match r {
                Ok(prev) => old(self).spec_map().contains_key(key@) && prev == old(
                    self,
                ).spec_map()[key@] && final(self).spec_map() == old(self).spec_map().remove(key@),
                Err(e) => e == TranslationError::DoesNotExist && !old(
                    self,
                ).spec_map().contains_key(key@) && *final(self) == *old(self),
            },
    {
        match self.find_index(key) {
            Some(i) => {
                proof {
                    lemma_map_index(self.entries@, i as int);
                    lemma_map_remove(self.entries@, i as int);
                }
                let (_, old_value) = self.entries.remove(i);
                Ok(old_value)
            },
            None => {
                proof {
                    lemma_map_absent(self.entries@, key@);
                }
                Err(TranslationError::DoesNotExist)
            },
        }
    }
}

} // verus!
