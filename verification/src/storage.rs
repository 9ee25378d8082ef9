//! A pool of values addressed by dense numeric ids, plus a table that maps keys to
//! ids.

use vstd::prelude::*;

use crate::span::Span;

verus! {

/// Keys of a [`Storage`]: two keys are the same exactly when their views agree.
pub trait StorageKey: View + Sized {
    fn same_key(&self, other: &Self) -> (r: bool)
        ensures
            r == (self@ == other@),
    ;
}

impl StorageKey for Span {
    fn same_key(&self, other: &Self) -> (r: bool) {
        self.start == other.start && self.end == other.end && self.source_id.0
            == other.source_id.0
    }
}

impl StorageKey for String {
    fn same_key(&self, other: &Self) -> (r: bool) {
        self.eq(other)
    }
}

/// The mapping described by an association list; a later entry wins over an
/// earlier one with the same key.
pub open spec fn assoc_map<K: View, V>(s: Seq<(K, V)>) -> Map<K::V, V>
    decreases s.len(),
{
    if s.len() == 0 {
        Map::empty()
    } else {
        assoc_map(s.drop_last()).insert(s.last().0@, s.last().1)
    }
}

/// No key occurs twice in the association list.
pub open spec fn keys_unique<K: View, V>(s: Seq<(K, V)>) -> bool {
    forall|i: int, j: int| 0 <= i < j < s.len() ==> s[i].0@ != s[j].0@
}

pub proof fn lemma_assoc_found<K: View, V>(s: Seq<(K, V)>, i: int)
    requires
        keys_unique(s),
        0 <= i < s.len(),
    ensures
        assoc_map(s).contains_key(s[i].0@),
        assoc_map(s)[s[i].0@] == s[i].1,
    decreases s.len(),
{
    if i < s.len() - 1 {
        lemma_assoc_found(s.drop_last(), i);
    }
}

pub proof fn lemma_assoc_absent<K: View, V>(s: Seq<(K, V)>, k: K::V)
    requires
        forall|i: int| 0 <= i < s.len() ==> s[i].0@ != k,
    ensures
        !assoc_map(s).contains_key(k),
    decreases s.len(),
{
    if s.len() > 0 {
        lemma_assoc_absent(s.drop_last(), k);
    }
}

pub proof fn lemma_assoc_update<K: View, V>(s: Seq<(K, V)>, i: int, e: (K, V))
    requires
        keys_unique(s),
        0 <= i < s.len(),
        e.0@ == s[i].0@,
    ensures
        assoc_map(s.update(i, e)) =~= assoc_map(s).insert(e.0@, e.1),
    decreases s.len(),
{
    let t = s.update(i, e);
    if i == s.len() - 1 {
        assert(t.drop_last() =~= s.drop_last());
        lemma_assoc_absent(s.drop_last(), e.0@);
    } else {
        assert(t.drop_last() =~= s.drop_last().update(i, e));
        lemma_assoc_update(s.drop_last(), i, e);
    }
}

/// Values addressed by position in `pool`, and a table from keys to positions.
#[derive(Debug, Clone)]
pub struct Storage<K, V> {
    pub map: Vec<(K, usize)>,
    pub pool: Vec<V>,
}

impl<K: StorageKey, V> Storage<K, V> {
    /// The key table is well formed: no key is stored twice.
    pub open spec fn wf(&self) -> bool {
        keys_unique(self.map@)
    }

    /// The table from keys to ids.
    pub open spec fn key_map(&self) -> Map<K::V, usize> {
        assoc_map(self.map@)
    }

    /// The id stored for `key`, if any.
    pub open spec fn spec_id_of(&self, key: K::V) -> Option<usize> {
        if self.key_map().contains_key(key) {
            Some(self.key_map()[key])
        } else {
            None
        }
    }

    pub fn new() -> (r: Self)
        ensures
            r.wf(),
            r.key_map() == Map::<K::V, usize>::empty(),
            r.pool@ == Seq::<V>::empty(),
    {
        Self { map: Vec::new(), pool: Vec::new() }
    }

    fn find_entry(&self, key: &K) -> (r: Option<usize>)
        requires
            self.wf(),
        ensures
            match r {
                Some(i) => i < self.map@.len() && self.map@[i as int].0@ == key@,
                None => forall|i: int|
                    0 <= i < self.map@.len() ==> self.map@[i].0@ != key@,
            },
    {
        let mut i: usize = 0;
        while i < self.map.len()
            invariant
                i <= self.map@.len(),
                forall|j: int| 0 <= j < i ==> self.map@[j].0@ != key@,
            decreases self.map@.len() - i,
        {
            if self.map[i].0.same_key(key) {
                return Some(i);
            }
            i = i + 1;
        }
        None
    }

    /// The id that `key` is mapped to.
    pub fn get_by_id_key(&self, key: &K) -> (r: Option<usize>)
        requires
            self.wf(),
        ensures
            r == self.spec_id_of(key@),
    {
        match self.find_entry(key) {
            Some(i) => {
                proof {
                    lemma_assoc_found(self.map@, i as int);
                }
                Some(self.map[i].1)
            },
            None => {
                proof {
                    lemma_assoc_absent(self.map@, key@);
                }
                None
            },
        }
    }

    /// Stores `value`.  When `key` is already mapped to an id, the value is inserted at
    /// that position (shifting the later values up) and that id is returned; otherwise
    /// the value is appended and its new position returned.  The key table is left
    /// unchanged either way.
    pub fn put(&mut self, key: K, value: V) -> (r: usize)
        requires
            old(self).wf(),
            old(self).spec_id_of(key@) matches Some(id) ==> id <= old(self).pool@.len(),
            old(self).spec_id_of(key@) is None ==> old(self).pool@.len() < usize::MAX,
        ensures
            final(self).wf(),
            final(self).key_map() == old(self).key_map(),
            match old(self).spec_id_of(key@) {
                Some(id) => r == id && final(self).pool@ == old(self).pool@.insert(id as int, value),
                None => r == old(self).pool@.len() && final(self).pool@ == old(self).pool@.push(value),
            },
    {
        match self.get_by_id_key(&key) {
            Some(id) => {
                self.pool.insert(id, value);
                id
            },
            None => {
                let new_id = self.pool.len();
                self.pool.push(value);
                new_id
            },
        }
    }

    /// Maps `key` to `id`, returning the id it was mapped to before.
    pub fn map(&mut self, key: K, id: usize) -> (r: Option<usize>)
        requires
            old(self).wf(),
        ensures
            final(self).wf(),
            r == old(self).spec_id_of(key@),
            final(self).key_map() == old(self).key_map().insert(key@, id),
            final(self).pool@ == old(self).pool@,
    {
        match self.find_entry(&key) {
            Some(i) => {
                let prev = self.map[i].1;
                proof {
                    lemma_assoc_found(self.map@, i as int);
                    lemma_assoc_update(self.map@, i as int, (key, id));
                }
                let ghost before = self.map@;
                self.map.set(i, (key, id));
                assert(keys_unique(self.map@)) by {
                    assert forall|a: int, b: int|
                        0 <= a < b < self.map@.len() implies self.map@[a].0@
                        != self.map@[b].0@ by {
                        assert(self.map@[a].0@ == before[a].0@);
                        assert(self.map@[b].0@ == before[b].0@);
                    }
                }
                Some(prev)
            },
            None => {
                proof {
                    lemma_assoc_absent(self.map@, key@);
                }
                let ghost before = self.map@;
                self.map.push((key, id));
                assert(self.map@.drop_last() =~= before);
                None
            },
        }
    }

    /// The value stored under the id that `key` is mapped to.
    pub fn get_from_key(&self, key: &K) -> (r: Option<&V>)
        requires
            self.wf(),
        ensures
            r == match self.spec_id_of(key@) {
                Some(id) => if id < self.pool@.len() {
                    Some(&self.pool@[id as int])
                } else {
                    None
                },
                None => None,
            },
    {
        let id = self.get_by_id_key(key)?;
        if id < self.pool.len() {
            Some(&self.pool[id])
        } else {
            None
        }
    }

    /// Mutable access to the value stored under the id that `key` is mapped to.
    pub fn get_from_key_mut(&mut self, key: &K) -> (r: Option<&mut V>)
        requires
            old(self).wf(),
        ensures
            match old(self).spec_id_of(key@) {
                Some(id) => if id < old(self).pool@.len() {
                    &&& r is Some
                    &&& *r->0 == old(self).pool@[id as int]
                    &&& final(self).pool@ == old(self).pool@.update(id as int, *final(r->0))
                    &&& final(self).map == old(self).map
                } else {
                    r is None && *final(self) == *old(self)
                },
                None => r is None && *final(self) == *old(self),
            },
    {
        match self.get_by_id_key(key) {
            Some(id) => {
                if id < self.pool.len() {
                    Some(&mut self.pool[id])
                } else {
                    None
                }
            },
            None => None,
        }
    }

    pub fn get_pool(&self) -> (r: &Vec<V>)
        ensures
            r == &self.pool,
    {
        &self.pool
    }

    pub fn get_pool_mut(&mut self) -> (r: &mut Vec<V>)
        ensures
            *r == old(self).pool,
            final(self).pool == *final(r),
            final(self).map == old(self).map,
            final(self).wf() == old(self).wf(),
            final(self).key_map() == old(self).key_map(),
    {
        &mut self.pool
    }
}


/// Mapping a key to an id and then looking the key up gives that id; every other key
/// keeps what it was mapped to.
pub proof fn law_map_then_lookup<K: StorageKey, V>(
    before: Storage<K, V>,
    after: Storage<K, V>,
    key: K::V,
    id: usize,
    other: K::V,
)
    requires
        after.key_map() == before.key_map().insert(key, id),
    ensures
        after.spec_id_of(key) == Some(id),
        other != key ==> after.spec_id_of(other) == before.spec_id_of(other),
{
}
} // verus!
