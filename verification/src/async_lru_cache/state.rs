//! Mathematical model of the cache.

use crate::async_lru_cache::entry::{counted, AsyncLruCacheEntry, Observation};
use std::sync::Arc;
use vstd::prelude::*;

verus! {

/// A cache that has to be flushed before the cache that lists it.
pub struct Dependency<D: ?Sized> {
    /// Identifies the cache: two handles are for the same cache if and only if these are equal.
    pub id: usize,
    /// Handle to the cache.
    pub cache: Arc<D>,
}

impl<D: ?Sized> Dependency<D> {
    /// Another handle to the same cache.
    pub fn share(&self) -> (other: Self)
        ensures
            other == *self,
    {
        Dependency { id: self.id, cache: Arc::clone(&self.cache) }
    }
}

/// The cache with the given ID is on the list of dependencies.
pub open spec fn depends_directly<D: ?Sized>(flush_before: Seq<Dependency<D>>, id: usize) -> bool {
    exists|i: int| 0 <= i < flush_before.len() && (#[trigger] flush_before[i]).id == id
}

/// No cache is on the list of dependencies more than once.
pub open spec fn listed_once<D: ?Sized>(flush_before: Seq<Dependency<D>>) -> bool {
    forall|i: int, j: int|
        0 <= i < j < flush_before.len() ==> (#[trigger] flush_before[i]).id != (
        #[trigger] flush_before[j]).id
}

/// Contents of a cache.
#[verifier::ext_equal]
#[verifier::reject_recursive_types(K)]
pub struct CacheState<K, V, D: ?Sized> {
    /// Cache entries.
    pub entries: Map<K, AsyncLruCacheEntry<V>>,
    /// How many references to each object the cache has given out since it was put in.
    pub lent: Map<K, nat>,
    /// Flush dependencies (flush these first).
    pub flush_before: Seq<Dependency<D>>,
    /// Counter that gives out the “timestamps”.
    pub lru_timer: usize,
    /// Upper limit of how many entries to cache.
    pub limit: usize,
}

/// The timestamp after `t`.  The counter wraps around.
pub open spec fn tick(t: usize) -> usize {
    if t == usize::MAX {
        0
    } else {
        (t + 1) as usize
    }
}

/// How many timestamps were given out from `last_used` to `now`, the counter having wrapped
/// around at most once in between.
pub open spec fn age(now: usize, last_used: usize) -> int {
    if last_used <= now {
        now - last_used
    } else {
        now - last_used + usize::MAX + 1
    }
}

impl<K, V, D: ?Sized> CacheState<K, V, D> {
    /// A cache without entries or dependencies, in which nothing was accessed yet.
    pub open spec fn empty(limit: usize) -> Self {
        CacheState {
            entries: Map::empty(),
            lent: Map::empty(),
            flush_before: Seq::empty(),
            lru_timer: 0,
            limit,
        }
    }

    /// Every entry holds an object, there are no more entries than the limit allows, and no cache
    /// is listed as a dependency more than once.
    pub open spec fn wf(self) -> bool {
        &&& self.entries.dom().finite()
        &&& self.entries.len() <= self.limit
        &&& self.lent.dom() == self.entries.dom()
        &&& forall|k: K| #[trigger] self.entries.contains_key(k) ==> self.entries[k].value is Some
        &&& listed_once(self.flush_before)
    }

    /// The object cached under `key`.
    pub open spec fn object(self, key: K) -> Arc<V> {
        self.entries[key].value->0
    }

    /// The entry under `key` was accessed, and a reference to its object given out.
    pub open spec fn touched(self, key: K) -> Self {
        CacheState {
            entries: self.entries.insert(
                key,
                AsyncLruCacheEntry::of(self.object(key), self.lru_timer),
            ),
            lru_timer: tick(self.lru_timer),
            ..self.lending(key)
        }
    }

    /// A reference to the object under `key` was given out.
    pub open spec fn lending(self, key: K) -> Self {
        CacheState { lent: self.lent.insert(key, self.lent[key] + 1), ..self }
    }

    /// A reference to each object was given out.
    pub open spec fn lending_all(self) -> Self {
        CacheState { lent: self.lent.map_values(|n: nat| n + 1), ..self }
    }

    /// `value` was put under `key`, and counts as accessed.
    pub open spec fn stored(self, key: K, value: Arc<V>) -> Self {
        CacheState {
            entries: self.entries.insert(key, AsyncLruCacheEntry::of(value, self.lru_timer)),
            lent: self.lent.insert(key, 0),
            lru_timer: tick(self.lru_timer),
            ..self
        }
    }

    /// The entry under `key` is `entry`, put in anew.
    pub open spec fn with_entry(self, key: K, entry: AsyncLruCacheEntry<V>) -> Self {
        CacheState {
            entries: self.entries.insert(key, entry),
            lent: self.lent.insert(key, 0),
            ..self
        }
    }

    /// The entry under `key` was put in anew.
    pub open spec fn renewed(self, key: K) -> Self {
        CacheState { lent: self.lent.insert(key, 0), ..self }
    }

    /// There is no entry under `key`.
    pub open spec fn without(self, key: K) -> Self {
        CacheState { entries: self.entries.remove(key), lent: self.lent.remove(key), ..self }
    }

    /// The object under `key` is `value`; when it was last accessed stays.
    pub open spec fn replaced(self, key: K, value: Arc<V>) -> Self {
        self.with_entry(key, AsyncLruCacheEntry::of(value, self.entries[key].last_used))
    }

    /// The flush dependencies are `flush_before`.
    pub open spec fn depending_on(self, flush_before: Seq<Dependency<D>>) -> Self {
        CacheState { flush_before, ..self }
    }

    /// `seen` holds one observation of each entry.
    pub open spec fn observed_as(self, seen: Seq<Observation<K>>) -> bool {
        &&& forall|i: int|
            0 <= i < seen.len() ==> self.entries.contains_key((#[trigger] seen[i]).key)
                && self.entries[seen[i].key].last_used == seen[i].last_used
        &&& forall|i: int, j: int|
            0 <= i < j < seen.len() ==> (#[trigger] seen[i]).key != (#[trigger] seen[j]).key
        &&& forall|k: K| #[trigger]
            self.entries.contains_key(k) ==> exists|i: int|
                0 <= i < seen.len() && (#[trigger] seen[i]).key == k
    }

    /// The numbers of references in each observation in `seen` are those of the object under its
    /// key, counted while the cache had given out no more references than it has.
    pub open spec fn counted_as(self, seen: Seq<Observation<K>>) -> bool {
        forall|i: int|
            0 <= i < seen.len() ==> counted(
                self.object((#[trigger] seen[i]).key),
                self.lent[seen[i].key],
                seen[i].strong_count,
                seen[i].weak_count,
            )
    }

    /// `listed` holds each entry's key and object once.
    pub open spec fn listed_as(self, listed: Seq<(K, Arc<V>)>) -> bool {
        &&& forall|i: int|
            0 <= i < listed.len() ==> self.entries.contains_key((#[trigger] listed[i]).0)
                && self.object(listed[i].0) == listed[i].1
        &&& forall|i: int, j: int|
            0 <= i < j < listed.len() ==> (#[trigger] listed[i]).0 != (#[trigger] listed[j]).0
        &&& forall|k: K| #[trigger]
            self.entries.contains_key(k) ==> exists|i: int|
                0 <= i < listed.len() && (#[trigger] listed[i]).0 == k
    }

    /// `keys` holds each entry's key once.
    pub open spec fn keyed_by(self, keys: Seq<K>) -> bool {
        &&& keys.no_duplicates()
        &&& forall|k: K|
            #![trigger self.entries.contains_key(k)]
            #![trigger keys.contains(k)]
            self.entries.contains_key(k) <==> keys.contains(k)
    }
}

} // verus!
