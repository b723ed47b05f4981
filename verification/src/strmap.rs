//! A string-keyed lookup table with a `Map` view.
//!
//! The two indexes of the pipeline (ratings by title, episode links by
//! episode) are held as entry lists with distinct keys. `set` overwrites
//! an existing key in place, so a later record for the same title wins,
//! and insertion order of the remaining keys is kept.

use vstd::prelude::*;

verus! {

/// The mapping held by an entry list; a later entry for a key wins.
pub open spec fn kv_map<V: View>(entries: Seq<(String, V)>) -> Map<Seq<char>, V::V>
    decreases entries.len(),
{
    if entries.len() == 0 {
        Map::empty()
    } else {
        kv_map(entries.drop_last()).insert(entries.last().0@, entries.last().1@)
    }
}

/// No two entries share a key.
pub open spec fn keys_distinct<V: View>(entries: Seq<(String, V)>) -> bool {
    forall|i: int, j: int| 0 <= i < j < entries.len() ==> entries[i].0@ != entries[j].0@
}

proof fn lemma_kv_map_get<V: View>(entries: Seq<(String, V)>, i: int)
    requires
        keys_distinct(entries),
        0 <= i < entries.len(),
    ensures
        kv_map(entries).contains_key(entries[i].0@),
        kv_map(entries)[entries[i].0@] == entries[i].1@,
    decreases entries.len(),
{
    if i < entries.len() - 1 {
        let prev = entries.drop_last();
        assert(keys_distinct(prev));
        lemma_kv_map_get(prev, i);
        assert(entries[i].0@ != entries.last().0@);
    }
}

proof fn lemma_kv_map_absent<V: View>(entries: Seq<(String, V)>, key: Seq<char>)
    requires
        forall|k: int| 0 <= k < entries.len() ==> entries[k].0@ != key,
    ensures
        !kv_map(entries).contains_key(key),
    decreases entries.len(),
{
    if entries.len() > 0 {
        lemma_kv_map_absent(entries.drop_last(), key);
    }
}

proof fn lemma_kv_map_update<V: View>(entries: Seq<(String, V)>, i: int, e: (String, V))
    requires
        keys_distinct(entries),
        0 <= i < entries.len(),
        entries[i].0@ == e.0@,
    ensures
        kv_map(entries.update(i, e)) == kv_map(entries).insert(e.0@, e.1@),
        keys_distinct(entries.update(i, e)),
    decreases entries.len(),
{
    let updated = entries.update(i, e);
    assert(keys_distinct(updated));
    if i == entries.len() - 1 {
        assert(updated.drop_last() =~= entries.drop_last());
        assert(kv_map(entries.drop_last()).insert(entries.last().0@, entries.last().1@).insert(
            e.0@,
            e.1@,
        ) =~= kv_map(entries.drop_last()).insert(e.0@, e.1@));
    } else {
        let prev = entries.drop_last();
        assert(keys_distinct(prev));
        lemma_kv_map_update(prev, i, e);
        assert(updated.drop_last() =~= prev.update(i, e));
        assert(updated.last() == entries.last());
        assert(e.0@ != entries.last().0@);
        assert(kv_map(prev).insert(e.0@, e.1@).insert(entries.last().0@, entries.last().1@) =~= kv_map(
            prev,
        ).insert(entries.last().0@, entries.last().1@).insert(e.0@, e.1@));
    }
}

/// A lookup table from title identifiers to values, the keys distinct.
pub struct StrMap<V: View> {
    entries: Vec<(String, V)>,
}

impl<V: View> View for StrMap<V> {
    type V = Map<Seq<char>, V::V>;

    closed spec fn view(&self) -> Map<Seq<char>, V::V> {
        kv_map(self.entries@)
    }
}

impl<V: View> StrMap<V> {
    /// The keys of the entry list are distinct; established by `new` and
    /// preserved by `set`.
    pub closed spec fn wf(&self) -> bool {
        keys_distinct(self.entries@)
    }

    /// An empty table.
    pub fn new() -> (r: Self)
        ensures
            r@ == Map::<Seq<char>, V::V>::empty(),
            r.wf(),
    {
        StrMap { entries: Vec::new() }
    }

    fn find(&self, key: &String) -> (r: Option<usize>)
        ensures
            match r {
                Some(i) => i < self.entries@.len() && self.entries@[i as int].0@ == key@,
                None => forall|k: int| 0 <= k < self.entries@.len() ==> self.entries@[k].0@ != key@,
            },
    {
        let mut i: usize = 0;
        while i < self.entries.len()
            invariant
                0 <= i <= self.entries@.len(),
                forall|k: int| 0 <= k < i ==> self.entries@[k].0@ != key@,
            decreases self.entries@.len() - i,
        {
            if self.entries[i].0 == *key {
                return Some(i);
            }
            i = i + 1;
        }
        None
    }

    /// Binds `key` to `value`, replacing any earlier binding.
    pub fn set(&mut self, key: String, value: V)
        requires
            old(self).wf(),
        ensures
            final(self)@ == old(self)@.insert(key@, value@),
            final(self).wf(),
    {
        let found = self.find(&key);
        match found {
            Some(i) => {
                let ghost entries0 = self.entries@;
                self.entries.remove(i);
                self.entries.insert(i, (key, value));
                proof {
                    assert(self.entries@ =~= entries0.update(
                        i as int,
                        self.entries@[i as int],
                    ));
                    lemma_kv_map_update(entries0, i as int, self.entries@[i as int]);
                }
            },
            None => {
                let ghost entries0 = self.entries@;
                self.entries.push((key, value));
                proof {
                    assert(self.entries@.drop_last() =~= entries0);
                    assert(keys_distinct(self.entries@));
                }
            },
        }
    }

    /// Looks `key` up.
    pub fn get<'a>(&'a self, key: &String) -> (r: Option<&'a V>)
        requires
            self.wf(),
        ensures
            match r {
                Some(v) => self@.contains_key(key@) && v@ == self@[key@],
                None => !self@.contains_key(key@),
            },
    {
        let found = self.find(key);
        match found {
            Some(i) => {
                proof {
                    lemma_kv_map_get(self.entries@, i as int);
                }
                Some(&self.entries[i].1)
            },
            None => {
                proof {
                    lemma_kv_map_absent(self.entries@, key@);
                }
                None
            },
        }
    }
}

} // verus!
