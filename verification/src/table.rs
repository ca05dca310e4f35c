//! A small map from text keys to values, kept as a list of entries in
//! which the last entry for a key is the one that counts.

use vstd::prelude::*;

verus! {

/// The value of the last entry for `k`.
pub open spec fn lookup<V>(s: Seq<(Seq<char>, V)>, k: Seq<char>) -> Option<V>
    decreases s.len(),
{
    if s.len() == 0 {
        None
    } else if s.last().0 == k {
        Some(s.last().1)
    } else {
        lookup(s.drop_last(), k)
    }
}

/// The map that a list of entries stands for.
pub open spec fn entries_map<V>(s: Seq<(Seq<char>, V)>) -> Map<Seq<char>, V> {
    Map::new(|k: Seq<char>| lookup(s, k) is Some, |k: Seq<char>| lookup(s, k)->0)
}

proof fn lemma_lookup_none<V>(s: Seq<(Seq<char>, V)>, k: Seq<char>)
    requires
        forall|j: int| 0 <= j < s.len() ==> s[j].0 != k,
    ensures
        lookup(s, k) is None,
    decreases s.len(),
{
    if s.len() > 0 {
        lemma_lookup_none(s.drop_last(), k);
    }
}

proof fn lemma_lookup_last<V>(s: Seq<(Seq<char>, V)>, k: Seq<char>, i: int)
    requires
        0 <= i < s.len(),
        s[i].0 == k,
        forall|j: int| i < j < s.len() ==> s[j].0 != k,
    ensures
        lookup(s, k) == Some(s[i].1),
    decreases s.len(),
{
    if i < s.len() - 1 {
        lemma_lookup_last(s.drop_last(), k, i);
    }
}

proof fn lemma_lookup_update<V>(s: Seq<(Seq<char>, V)>, i: int, k: Seq<char>, v: V, k2: Seq<char>)
    requires
        0 <= i < s.len(),
        s[i].0 == k,
        forall|j: int| i < j < s.len() ==> s[j].0 != k,
    ensures
        lookup(s.update(i, (k, v)), k2) == if k2 == k {
            Some(v)
        } else {
            lookup(s, k2)
        },
    decreases s.len(),
{
    let t = s.update(i, (k, v));
    if i == s.len() - 1 {
        assert(t.drop_last() =~= s.drop_last());
    } else {
        assert(t.drop_last() =~= s.drop_last().update(i, (k, v)));
        lemma_lookup_update(s.drop_last(), i, k, v, k2);
    }
}

/// Entries with their keys as characters.
pub open spec fn keyed<V>(e: Seq<(String, V)>) -> Seq<(Seq<char>, V)> {
    e.map_values(|x: (String, V)| (x.0@, x.1))
}

/// Text keys and their values.
pub struct Table<V> {
    entries: Vec<(String, V)>,
}

impl<V> Table<V> {
    /// The entries with their keys as characters.
    pub closed spec fn entries_view(&self) -> Seq<(Seq<char>, V)> {
        keyed(self.entries@)
    }

    /// The map that the table holds.
    pub closed spec fn map(&self) -> Map<Seq<char>, V> {
        entries_map(self.entries_view())
    }

    pub fn new() -> (r: Self)
        ensures
            r.map() == Map::<Seq<char>, V>::empty(),
    {
        let r = Table { entries: Vec::new() };
        assert(r.map() =~= Map::<Seq<char>, V>::empty());
        r
    }

    /// The index of the last entry for `key`.
    fn find(&self, key: &str) -> (r: Option<usize>)
        ensures
            match r {
                Some(i) => i < self.entries_view().len() && self.entries_view()[i as int].0
                    == key@ && forall|j: int|
                    i < j < self.entries_view().len() ==> self.entries_view()[j].0 != key@,
                None => forall|j: int|
                    0 <= j < self.entries_view().len() ==> self.entries_view()[j].0 != key@,
            },
    {
        let mut i = self.entries.len();
        while i > 0
            invariant
                i <= self.entries@.len(),
                forall|j: int|
                    i <= j < self.entries_view().len() ==> self.entries_view()[j].0 != key@,
            decreases i,
        {
            i = i - 1;
            assert(self.entries_view()[i as int].0 == self.entries@[i as int].0@);
            if crate::text::str_eq(self.entries[i].0.as_str(), key) {
                return Some(i);
            }
        }
        None
    }

    /// The value for `key`, if any.
    pub fn get(&self, key: &str) -> (r: Option<&V>)
        ensures
            match r {
                Some(v) => self.map().contains_key(key@) && *v == self.map()[key@],
                None => !self.map().contains_key(key@),
            },
    {
        match self.find(key) {
            Some(i) => {
                proof {
                    lemma_lookup_last(self.entries_view(), key@, i as int);
                }
                Some(&self.entries[i].1)
            },
            None => {
                proof {
                    lemma_lookup_none(self.entries_view(), key@);
                }
                None
            },
        }
    }

    /// The value for `key`, to change in place.
    pub fn get_mut(&mut self, key: &str) -> (r: Option<&mut V>)
        ensures
            match r {
                Some(v) => {
                    &&& old(self).map().contains_key(key@)
                    &&& *v == old(self).map()[key@]
                    &&& final(self).map() == old(self).map().insert(key@, *final(v))
                },
                None => !old(self).map().contains_key(key@) && final(self).map() == old(
                    self,
                ).map(),
            },
    {
        match self.find(key) {
            Some(i) => {
                proof {
                    lemma_lookup_last(self.entries_view(), key@, i as int);
                }
                let ghost before = self.entries_view();
                let ghost raw = self.entries@;
                let ghost ks = self.entries@[i as int].0;
                proof {
                    assert forall|w: V, k2: Seq<char>|
                        #[trigger] lookup(keyed(raw.update(i as int, (ks, w))), k2) == if k2 == key@ {
                            Some(w)
                        } else {
                            lookup(before, k2)
                        } by {
                        assert(keyed(raw.update(i as int, (ks, w))) =~= before.update(
                            i as int,
                            (key@, w),
                        ));
                        lemma_lookup_update(before, i as int, key@, w, k2);
                    }
                }
                let entry = &mut self.entries[i];
                let v = &mut entry.1;
                Some(v)
            },
            None => {
                proof {
                    lemma_lookup_none(self.entries_view(), key@);
                }
                None
            },
        }
    }

    /// Sets the value for `key`, replacing any earlier one.
    pub fn insert(&mut self, key: String, value: V)
        ensures
            final(self).map() == old(self).map().insert(key@, value),
    {
        let ghost k = key@;
        match self.find(key.as_str()) {
            Some(i) => {
                let ghost before = self.entries_view();
                self.entries.set(i, (key, value));
                proof {
                    assert(self.entries_view() =~= before.update(i as int, (k, value)));
                    assert forall|k2: Seq<char>|
                        lookup(self.entries_view(), k2) == if k2 == k {
                            Some(value)
                        } else {
                            lookup(before, k2)
                        } by {
                        lemma_lookup_update(before, i as int, k, value, k2);
                    }
                    assert(self.map() =~= old(self).map().insert(k, value));
                }
            },
            None => {
                let ghost before = self.entries_view();
                self.entries.push((key, value));
                proof {
                    assert(self.entries_view() =~= before.push((k, value)));
                    assert(self.entries_view().drop_last() =~= before);
                    assert(self.map() =~= old(self).map().insert(k, value));
                }
            },
        }
    }

    /// The entries, oldest first.
    pub fn entries(&self) -> (r: &[(String, V)])
        ensures
            keyed(r@) == self.entries_view(),
            entries_map(keyed(r@)) == self.map(),
    {
        self.entries.as_slice()
    }
}

} // verus!
