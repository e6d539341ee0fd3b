//! The cache itself.

use crate::async_lru_cache::entry::{
    counted, lemma_counted, strong_count, weak_count, AsyncLruCacheEntry, Kept, Observation,
};
use crate::async_lru_cache::state::{depends_directly, tick, CacheState, Dependency};
use std::collections::HashMap;
use std::hash::Hash;
use std::sync::Arc;
use vstd::prelude::*;
use vstd::std_specs::hash::obeys_key_model;
use vstd::std_specs::iter::IteratorSpec;

verus! {

/// What the cache has under a key.
struct Slot<V> {
    /// The object.
    kept: Kept<V>,
    /// When it was last accessed.
    last_used: usize,
}

impl<V> Slot<V> {
    /// The entry.
    spec fn entry(self) -> AsyncLruCacheEntry<V> {
        AsyncLruCacheEntry::of(self.kept.object(), self.last_used)
    }

    /// How many references to the object were given out.
    spec fn lent(self) -> nat {
        self.kept.lent()
    }
}

/// Count the references to an object.
fn count_references<V>(kept: &Kept<V>) -> (counts: (usize, usize))
    ensures
        counted(kept.object(), kept.lent(), counts.0, counts.1),
{
    let strong: usize = strong_count(kept);
    let weak: usize = weak_count(kept);
    proof {
        lemma_counted(kept, strong, weak);
    }
    (strong, weak)
}

/// Least-recently-used cache.
///
/// Keeps the most recently used entries up to a limited count.
///
/// `K` is the key used to uniquely identify cache entries, `V` is the cached data, and `D` is
/// what a handle to another cache leads to.
#[verifier::reject_recursive_types(K)]
pub struct AsyncLruCache<K, V, D: ?Sized> {
    /// Cache entries.
    map: HashMap<K, Slot<V>>,
    /// Flush dependencies (flush these first).
    flush_before: Vec<Dependency<D>>,
    /// Counter to generate “timestamps”.
    lru_timer: usize,
    /// Upper limit of how many entries to cache.
    limit: usize,
}

impl<K, V, D: ?Sized> View for AsyncLruCache<K, V, D> {
    type V = CacheState<K, V, D>;

    closed spec fn view(&self) -> CacheState<K, V, D> {
        CacheState {
            entries: self.map@.map_values(|slot: Slot<V>| slot.entry()),
            lent: self.map@.map_values(|slot: Slot<V>| slot.lent()),
            flush_before: self.flush_before@,
            lru_timer: self.lru_timer,
            limit: self.limit,
        }
    }
}

impl<K, V, D: ?Sized> AsyncLruCache<K, V, D> {
    /// The contents are well-formed, and `K` can serve as the key of a hash map.
    pub open spec fn wf(&self) -> bool {
        &&& obeys_key_model::<K>()
        &&& self@.wf()
    }
}

impl<K: Copy + Eq + Hash, V, D: ?Sized> AsyncLruCache<K, V, D> {
    /// Create a new cache.
    ///
    /// `size` is the maximum number of entries to keep in the cache.
    pub fn new(size: usize) -> (cache: Self)
        requires
            obeys_key_model::<K>(),
        ensures
            cache.wf(),
            cache@ == CacheState::<K, V, D>::empty(size),
    {
        let cache = AsyncLruCache {
            map: HashMap::new(),
            flush_before: Vec::new(),
            lru_timer: 0,
            limit: size,
        };
        assert(cache@ == CacheState::<K, V, D>::empty(size));
        cache
    }

    /// Number of entries.
    pub fn len(&self) -> (n: usize)
        requires
            self.wf(),
        ensures
            n == self@.entries.len(),
    {
        assert(self@.entries.dom() == self.map@.dom());
        self.map.len()
    }

    /// Whether the limit leaves no room for another entry.
    pub fn is_full(&self) -> (full: bool)
        requires
            self.wf(),
        ensures
            full <==> self@.entries.len() >= self@.limit,
    {
        assert(self@.entries.dom() == self.map@.dom());
        self.map.len() >= self.limit
    }

    /// The current time, i.e. the timestamp that the next access will get.
    pub(crate) fn now(&self) -> (now: usize)
        ensures
            now == self@.lru_timer,
    {
        self.lru_timer
    }

    /// Give out a timestamp.
    fn take_timestamp(&mut self) -> (now: usize)
        ensures
            now == old(self)@.lru_timer,
            final(self)@ == (CacheState { lru_timer: tick(old(self)@.lru_timer), ..old(self)@ }),
    {
        let now: usize = self.lru_timer;
        self.lru_timer = now.wrapping_add(1);
        now
    }

    /// Take the slot under `key` out of the map, if there is one.
    fn take_slot(&mut self, key: K) -> (slot: Option<Slot<V>>)
        requires
            old(self).wf(),
        ensures
            final(self).wf(),
            match slot {
                Some(slot) => {
                    &&& old(self)@.entries.contains_key(key)
                    &&& slot.entry() == old(self)@.entries[key]
                    &&& slot.lent() == old(self)@.lent[key]
                    &&& final(self)@ == old(self)@.without(key)
                },
                None => !old(self)@.entries.contains_key(key) && final(self)@ == old(self)@,
            },
    {
        let slot = self.map.remove(&key);
        proof {
            if slot is Some {
                assert(self@ == old(self)@.without(key));
            } else {
                assert(self.map@ == old(self).map@);
            }
        }
        slot
    }

    /// Put a slot into the map.
    fn put_slot(&mut self, key: K, slot: Slot<V>)
        requires
            old(self).wf(),
            !old(self)@.entries.contains_key(key),
            old(self)@.entries.len() < old(self)@.limit,
        ensures
            final(self).wf(),
            final(self)@ == (CacheState {
                entries: old(self)@.entries.insert(key, slot.entry()),
                lent: old(self)@.lent.insert(key, slot.lent()),
                ..old(self)@
            }),
    {
        self.map.insert(key, slot);
        assert(self@.entries == old(self)@.entries.insert(key, slot.entry()));
        assert(self@.lent == old(self)@.lent.insert(key, slot.lent()));
    }

    /// The object under `key`, if there is one, without accessing it.
    pub(crate) fn peek(&mut self, key: K) -> (found: Option<Arc<V>>)
        requires
            old(self).wf(),
        ensures
            final(self).wf(),
            match found {
                Some(object) => {
                    &&& old(self)@.entries.contains_key(key)
                    &&& object == old(self)@.object(key)
                    &&& final(self)@ == old(self)@.lending(key)
                },
                None => !old(self)@.entries.contains_key(key) && final(self)@ == old(self)@,
            },
    {
        match self.take_slot(key) {
            Some(slot) => {
                let mut slot = slot;
                let object = slot.kept.lend();
                self.put_slot(key, slot);
                assert(self@ == old(self)@.lending(key));
                Some(object)
            },
            None => None,
        }
    }

    /// Access the entry under `key`, if there is one.
    pub(crate) fn touch(&mut self, key: K) -> (found: Option<Arc<V>>)
        requires
            old(self).wf(),
        ensures
            final(self).wf(),
            match found {
                Some(object) => {
                    &&& old(self)@.entries.contains_key(key)
                    &&& object == old(self)@.object(key)
                    &&& final(self)@ == old(self)@.touched(key)
                },
                None => !old(self)@.entries.contains_key(key) && final(self)@ == old(self)@,
            },
    {
        match self.take_slot(key) {
            Some(slot) => {
                let mut slot = slot;
                let object = slot.kept.lend();
                slot.last_used = self.take_timestamp();
                self.put_slot(key, slot);
                assert(self@ == old(self)@.touched(key));
                Some(object)
            },
            None => None,
        }
    }

    /// Put `value` under `key`, where there is no entry, as accessed now.
    pub(crate) fn store(&mut self, key: K, value: Arc<V>)
        requires
            old(self).wf(),
            !old(self)@.entries.contains_key(key),
            old(self)@.entries.len() < old(self)@.limit,
        ensures
            final(self).wf(),
            final(self)@ == old(self)@.stored(key, value),
    {
        let last_used: usize = self.take_timestamp();
        self.put_slot(key, Slot { kept: Kept::new(value), last_used });
    }

    /// Remove the object under `key`, and tell when it was last accessed.
    pub(crate) fn take(&mut self, key: K) -> (taken: (Kept<V>, usize))
        requires
            old(self).wf(),
            old(self)@.entries.contains_key(key),
        ensures
            final(self).wf(),
            taken.0.object() == old(self)@.object(key),
            taken.0.lent() == old(self)@.lent[key],
            old(self)@.entries[key] == AsyncLruCacheEntry::of(taken.0.object(), taken.1),
            final(self)@ == old(self)@.without(key),
    {
        match self.take_slot(key) {
            Some(slot) => (slot.kept, slot.last_used),
            None => vstd::pervasive::unreached(),
        }
    }

    /// Remove the entry under `key`.
    pub(crate) fn remove(&mut self, key: K) -> (entry: AsyncLruCacheEntry<V>)
        requires
            old(self).wf(),
            old(self)@.entries.contains_key(key),
        ensures
            final(self).wf(),
            entry == old(self)@.entries[key],
            final(self)@ == old(self)@.without(key),
    {
        let (kept, last_used): (Kept<V>, usize) = self.take(key);
        AsyncLruCacheEntry { value: Some(kept.release()), last_used }
    }

    /// Put back an entry that was removed.
    pub(crate) fn put_back(&mut self, key: K, entry: AsyncLruCacheEntry<V>)
        requires
            old(self).wf(),
            entry.value is Some,
            !old(self)@.entries.contains_key(key),
            old(self)@.entries.len() < old(self)@.limit,
        ensures
            final(self).wf(),
            final(self)@ == old(self)@.with_entry(key, entry),
    {
        match entry.value {
            Some(object) => {
                self.put_slot(key, Slot { kept: Kept::new(object), last_used: entry.last_used });
            },
            None => {},
        }
    }

    /// Replace the object under `key`.
    pub(crate) fn replace(&mut self, key: K, value: Arc<V>)
        requires
            old(self).wf(),
            old(self)@.entries.contains_key(key),
        ensures
            final(self).wf(),
            final(self)@ == old(self)@.replaced(key, value),
    {
        let (_, last_used): (Kept<V>, usize) = self.take(key);
        self.put_slot(key, Slot { kept: Kept::new(value), last_used });
        assert(self@ == old(self)@.replaced(key, value));
    }

    /// All entries, with their keys, in no particular order.
    fn pairs(&self) -> (pairs: Vec<(K, &Slot<V>)>)
        requires
            self.wf(),
        ensures
            forall|i: int|
                0 <= i < pairs@.len() ==> self@.entries.contains_key((#[trigger] pairs@[i]).0)
                    && self@.entries[pairs@[i].0] == pairs@[i].1.entry()
                    && self@.lent[pairs@[i].0] == pairs@[i].1.lent(),
            forall|i: int, j: int|
                0 <= i < j < pairs@.len() ==> (#[trigger] pairs@[i]).0 != (#[trigger] pairs@[j]).0,
            forall|k: K| #[trigger]
                self@.entries.contains_key(k) ==> exists|i: int|
                    0 <= i < pairs@.len() && (#[trigger] pairs@[i]).0 == k,
    {
        let mut pairs: Vec<(K, &Slot<V>)> = Vec::new();
        let ghost all = vstd::std_specs::hash::spec_hash_map_iter(&self.map).remaining();
        let iter = self.map.iter();
        assert(all.no_duplicates());
        for pair in it: iter
            invariant
                it.seq() == all,
                pairs@.len() == it.index(),
                forall|i: int|
                    0 <= i < pairs@.len() ==> (#[trigger] pairs@[i]).0 == *all[i].0 && pairs@[i].1
                        == all[i].1,
        {
            let (key, slot) = pair;
            pairs.push((*key, slot));
        }
        assert(pairs@.len() == all.len());
        assert forall|i: int| 0 <= i < pairs@.len() implies self@.entries.contains_key(
            (#[trigger] pairs@[i]).0,
        ) && self@.entries[pairs@[i].0] == pairs@[i].1.entry() && self@.lent[pairs@[i].0]
            == pairs@[i].1.lent() by {
            assert(self.map@.contains_key(*all[i].0));
        }
        assert forall|i: int, j: int| 0 <= i < j < pairs@.len() implies (#[trigger] pairs@[i]).0 != (
        #[trigger] pairs@[j]).0 by {
            assert(self.map@.contains_key(*all[i].0));
            assert(self.map@.contains_key(*all[j].0));
            assert(all[i] != all[j]);
        }
        assert forall|k: K| #[trigger] self@.entries.contains_key(k) implies exists|i: int|
            0 <= i < pairs@.len() && (#[trigger] pairs@[i]).0 == k by {
            assert(all.contains((&k, &self.map@[k])));
            let i = choose|i: int| 0 <= i < all.len() && all[i] == (&k, &self.map@[k]);
            assert(pairs@[i].0 == k);
        }
        pairs
    }

    /// All objects, with their keys, in no particular order.
    pub(crate) fn list(&mut self) -> (listed: Vec<(K, Arc<V>)>)
        requires
            old(self).wf(),
        ensures
            final(self).wf(),
            old(self)@.listed_as(listed@),
            final(self)@ == old(self)@.lending_all(),
    {
        let keys = self.keys();
        let mut listed: Vec<(K, Arc<V>)> = Vec::new();
        for i in 0..keys.len()
            invariant
                self.wf(),
                old(self).wf(),
                old(self)@.keyed_by(keys@),
                listed@.len() == i,
                self@.entries == old(self)@.entries,
                self@.flush_before == old(self)@.flush_before,
                self@.lru_timer == old(self)@.lru_timer,
                self@.limit == old(self)@.limit,
                forall|j: int|
                    0 <= j < i ==> (#[trigger] listed@[j]).0 == keys@[j] && listed@[j].1
                        == old(self)@.object(keys@[j]),
                forall|j: int|
                    0 <= j < keys@.len() ==> self@.lent[#[trigger] keys@[j]] == old(
                        self,
                    )@.lent[keys@[j]] + if j < i {
                        1int
                    } else {
                        0
                    },
        {
            let key = keys[i];
            assert(keys@.contains(key));
            match self.peek(key) {
                Some(object) => listed.push((key, object)),
                None => vstd::pervasive::unreached(),
            }
        }
        assert forall|k: K| #[trigger] old(self)@.entries.contains_key(k) implies exists|i: int|
            0 <= i < listed@.len() && (#[trigger] listed@[i]).0 == k by {
            assert(keys@.contains(k));
            let i = choose|i: int| 0 <= i < keys@.len() && keys@[i] == k;
            assert(listed@[i].0 == k);
        }
        assert forall|i: int| 0 <= i < listed@.len() implies old(self)@.entries.contains_key(
            (#[trigger] listed@[i]).0,
        ) by {
            assert(keys@.contains(keys@[i]));
        }
        assert(self@.lent == old(self)@.lending_all().lent) by {
            assert forall|k: K| self@.lent.contains_key(k) implies self@.lent[k] == old(
                self,
            )@.lent[k] + 1 by {
                assert(old(self)@.entries.contains_key(k));
                assert(keys@.contains(k));
                let i = choose|i: int| 0 <= i < keys@.len() && keys@[i] == k;
                assert(self@.lent[keys@[i]] == old(self)@.lent[keys@[i]] + 1);
            }
        }
        listed
    }

    /// All keys, in no particular order.
    pub(crate) fn keys(&self) -> (keys: Vec<K>)
        requires
            self.wf(),
        ensures
            self@.keyed_by(keys@),
    {
        let pairs = self.pairs();
        let mut keys: Vec<K> = Vec::new();
        for i in 0..pairs.len()
            invariant
                keys@.len() == i,
                forall|j: int| 0 <= j < i ==> #[trigger] keys@[j] == pairs@[j].0,
        {
            keys.push(pairs[i].0);
        }
        assert forall|k: K| self@.entries.contains_key(k) implies keys@.contains(k) by {
            let i = choose|i: int| 0 <= i < pairs@.len() && (#[trigger] pairs@[i]).0 == k;
            assert(keys@[i] == k);
        }
        assert forall|k: K| keys@.contains(k) implies self@.entries.contains_key(k) by {
            let i = choose|i: int| 0 <= i < keys@.len() && keys@[i] == k;
            assert(pairs@[i].0 == k);
        }
        keys
    }

    /// Count the references to all objects, in no particular order.
    pub(crate) fn observe(&self) -> (seen: Vec<Observation<K>>)
        requires
            self.wf(),
        ensures
            self@.observed_as(seen@),
            self@.counted_as(seen@),
    {
        let pairs = self.pairs();
        let mut seen: Vec<Observation<K>> = Vec::new();
        for i in 0..pairs.len()
            invariant
                self.wf(),
                seen@.len() == i,
                forall|j: int|
                    0 <= j < pairs@.len() ==> self@.entries.contains_key((#[trigger] pairs@[j]).0)
                        && self@.entries[pairs@[j].0] == pairs@[j].1.entry()
                        && self@.lent[pairs@[j].0] == pairs@[j].1.lent(),
                forall|j: int|
                    0 <= j < i ==> {
                        &&& (#[trigger] seen@[j]).key == pairs@[j].0
                        &&& seen@[j].last_used == pairs@[j].1.last_used
                        &&& counted(
                            self@.object(seen@[j].key),
                            self@.lent[seen@[j].key],
                            seen@[j].strong_count,
                            seen@[j].weak_count,
                        )
                    },
        {
            let (key, slot) = pairs[i];
            let (strong_count, weak_count): (usize, usize) = count_references(&slot.kept);
            seen.push(Observation { key, last_used: slot.last_used, strong_count, weak_count });
        }
        assert forall|k: K| #[trigger] self@.entries.contains_key(k) implies exists|i: int|
            0 <= i < seen@.len() && (#[trigger] seen@[i]).key == k by {
            let i = choose|i: int| 0 <= i < pairs@.len() && (#[trigger] pairs@[i]).0 == k;
            assert(seen@[i].key == k);
        }
        seen
    }

    /// Take the last dependency off the list.
    pub(crate) fn pop_dependency(&mut self) -> (popped: Option<Dependency<D>>)
        requires
            old(self).wf(),
        ensures
            final(self).wf(),
            match popped {
                Some(dependency) => {
                    &&& old(self)@.flush_before.len() > 0
                    &&& dependency == old(self)@.flush_before.last()
                    &&& !depends_directly(final(self)@.flush_before, dependency.id)
                    &&& final(self)@ == old(self)@.depending_on(old(self)@.flush_before.drop_last())
                },
                None => old(self)@.flush_before.len() == 0 && final(self)@ == old(self)@,
            },
    {
        let popped = self.flush_before.pop();
        proof {
            if popped is Some {
                assert(self.flush_before@ == old(self)@.flush_before.drop_last());
            }
        }
        popped
    }

    /// Put a dependency that is not on the list at its end.
    pub(crate) fn push_dependency(&mut self, dependency: Dependency<D>)
        requires
            old(self).wf(),
            !depends_directly(old(self)@.flush_before, dependency.id),
        ensures
            final(self).wf(),
            final(self)@ == old(self)@.depending_on(old(self)@.flush_before.push(dependency)),
    {
        self.flush_before.push(dependency);
    }

    /// Forget all dependencies.
    pub(crate) fn clear_dependencies(&mut self)
        requires
            old(self).wf(),
        ensures
            final(self).wf(),
            final(self)@ == old(self)@.depending_on(Seq::empty()),
    {
        self.flush_before.clear();
    }

    /// Whether the cache with the given ID is on the list of dependencies.
    pub(crate) fn depends_on(&self, id: usize) -> (found: bool)
        ensures
            found <==> depends_directly(self@.flush_before, id),
    {
        for i in 0..self.flush_before.len()
            invariant
                forall|j: int| 0 <= j < i ==> (#[trigger] self@.flush_before[j]).id != id,
        {
            if self.flush_before[i].id == id {
                assert(self@.flush_before[i as int].id == id);
                return true;
            }
        }
        false
    }

    /// The list of dependencies.
    ///
    /// To be called with the lock on the dependencies held.
    pub fn dependencies(&self) -> (dependencies: Vec<Dependency<D>>)
        ensures
            dependencies@ == self@.flush_before,
    {
        let mut dependencies: Vec<Dependency<D>> = Vec::new();
        for i in 0..self.flush_before.len()
            invariant
                dependencies@ == self@.flush_before.take(i as int),
        {
            dependencies.push(self.flush_before[i].share());
            assert(dependencies@ == self@.flush_before.take(i + 1));
        }
        assert(self@.flush_before.take(self@.flush_before.len() as int) == self@.flush_before);
        dependencies
    }
}

} // verus!
