//! Making room in the cache.

use crate::async_lru_cache::cache::AsyncLruCache;
use crate::async_lru_cache::entry::{AsyncLruCacheEntry, Observation};
use crate::async_lru_cache::error::CacheError;
use crate::async_lru_cache::state::{age, CacheState, Dependency};
use crate::async_lru_cache::step::{Action, Event, Step};
use crate::async_lru_cache::write_back::WriteBack;
use std::hash::Hash;
use vstd::prelude::*;

verus! {

/// Which entry to evict.
pub enum Victim<K> {
    /// The entry under this key.
    Entry(K),
    /// None: everything is in use.
    Nothing,
    /// None: something holds a weak reference to the object under this key.
    WeaklyReferenced(K),
}

/// The `i`th observation is of an object that only weak references from outside lead to.
pub open spec fn weakly_referenced<K>(seen: Seq<Observation<K>>, i: int) -> bool {
    0 <= i < seen.len() && seen[i].unused() && seen[i].weak_count != 0
}

/// The `i`th observation is of an unused entry, no unused entry is older, and none that was
/// looked at later is as old.
pub open spec fn oldest_unused<K>(seen: Seq<Observation<K>>, now: usize, i: int) -> bool {
    &&& 0 <= i < seen.len()
    &&& seen[i].unused()
    &&& forall|j: int|
        0 <= j < seen.len() && (#[trigger] seen[j]).unused() ==> {
            &&& age(now, seen[j].last_used) <= age(now, seen[i].last_used)
            &&& j > i ==> age(now, seen[j].last_used) < age(now, seen[i].last_used)
        }
}

/// `victim` is the entry to evict at the time `now`.
pub open spec fn is_victim<K>(seen: Seq<Observation<K>>, now: usize, victim: Victim<K>) -> bool {
    match victim {
        Victim::WeaklyReferenced(key) => exists|i: int| #[trigger]
            weakly_referenced(seen, i) && seen[i].key == key && forall|j: int|
                j < i ==> !weakly_referenced(seen, j),
        Victim::Nothing => forall|i: int|
            0 <= i < seen.len() ==> !(#[trigger] seen[i]).unused(),
        Victim::Entry(key) => {
            &&& forall|i: int| !weakly_referenced(seen, i)
            &&& exists|i: int| #[trigger] oldest_unused(seen, now, i) && seen[i].key == key
        },
    }
}

/// Choose the entry to evict at the time `now`: the least recently used one among those that
/// nothing outside of the cache holds on to.
pub fn choose_victim<K: Copy>(seen: &Vec<Observation<K>>, now: usize) -> (victim: Victim<K>)
    ensures
        is_victim(seen@, now, victim),
{
    let mut oldest: Option<(usize, usize)> = None;
    for i in 0..seen.len()
        invariant
            forall|j: int| j < i ==> !weakly_referenced(seen@, j),
            match oldest {
                Some((o, oldest_age)) => {
                    &&& o < i
                    &&& seen@[o as int].unused()
                    &&& oldest_age == age(now, seen@[o as int].last_used)
                    &&& forall|j: int|
                        0 <= j < i && (#[trigger] seen@[j]).unused() ==> {
                            &&& age(now, seen@[j].last_used) <= oldest_age
                            &&& j > o ==> age(now, seen@[j].last_used) < oldest_age
                        }
                },
                None => forall|j: int| 0 <= j < i ==> !(#[trigger] seen@[j]).unused(),
            },
    {
        if seen[i].strong_count == 1 {
            if seen[i].weak_count != 0 {
                assert(weakly_referenced(seen@, i as int));
                return Victim::WeaklyReferenced(seen[i].key);
            }
            let this_age: usize = now.wrapping_sub(seen[i].last_used);
            let older = match oldest {
                Some((_, oldest_age)) => this_age >= oldest_age,
                None => true,
            };
            if older {
                oldest = Some((i, this_age));
            }
        }
    }
    match oldest {
        Some((o, _)) => {
            assert(oldest_unused(seen@, now, o as int));
            Victim::Entry(seen[o].key)
        },
        None => Victim::Nothing,
    }
}

/// Eviction of an entry, to make room for another.
///
/// Runs with the exclusive lock on the map held.  The entry is out of the map while its object is
/// being flushed.
pub struct EnsureFreeEntry<K, V, D: ?Sized> {
    /// Key of the entry.
    pub key: K,
    /// The entry.
    pub entry: AsyncLruCacheEntry<V>,
    /// Flush of its object.
    pub write_back: WriteBack<D>,
}

/// How making room goes on.
pub type EnsureFreeEntryStep<K, V, D, E> = Step<
    EnsureFreeEntry<K, V, D>,
    Action<K, V, D>,
    Result<(), CacheError<K, E>>,
>;

/// What becomes of a full cache `before`, and how making room goes on, with the given victim: it
/// is taken out of the cache and is to be flushed.
pub open spec fn evicts_victim<K, V, D: ?Sized, E>(
    before: CacheState<K, V, D>,
    victim: Victim<K>,
    after: CacheState<K, V, D>,
    step: EnsureFreeEntryStep<K, V, D, E>,
) -> bool {
    match victim {
        Victim::Entry(key) => {
            &&& after == before.without(key)
            &&& step.waits(
                EnsureFreeEntry {
                    key,
                    entry: before.entries[key],
                    write_back: WriteBack::LockingDependencies,
                },
                Action::LockDependencies,
            )
        },
        Victim::Nothing => {
            &&& after == before
            &&& step.ends(Err(CacheError::EverythingInUse))
        },
        Victim::WeaklyReferenced(key) => {
            &&& after == before
            &&& step.ends(Err(CacheError::WeaklyReferenced(key)))
        },
    }
}

/// What becomes of a full cache `before`, and how making room goes on, when `seen` was observed.
pub open spec fn evicts<K, V, D: ?Sized, E>(
    before: CacheState<K, V, D>,
    seen: Seq<Observation<K>>,
    after: CacheState<K, V, D>,
    step: EnsureFreeEntryStep<K, V, D, E>,
) -> bool {
    exists|victim: Victim<K>| #[trigger]
        is_victim(seen, before.lru_timer, victim) && evicts_victim(before, victim, after, step)
}

/// What becomes of a cache `before`, and how making room goes on: nothing needs to be done if
/// there is room, and else the references to all objects are counted, and an entry is evicted.
pub open spec fn starts_making_room<K, V, D: ?Sized, E>(
    before: CacheState<K, V, D>,
    after: CacheState<K, V, D>,
    step: EnsureFreeEntryStep<K, V, D, E>,
) -> bool {
    if before.entries.len() < before.limit {
        after == before && step.ends(Ok(()))
    } else {
        exists|seen: Seq<Observation<K>>| #[trigger]
            before.observed_as(seen) && before.counted_as(seen) && evicts(before, seen, after, step)
    }
}

impl<K: Copy + Eq + Hash, V, D: ?Sized> AsyncLruCache<K, V, D> {
    /// Evict an entry, given what was observed of all entries.
    pub fn evict<E>(&mut self, seen: &Vec<Observation<K>>) -> (step: EnsureFreeEntryStep<K, V, D, E>)
        requires
            old(self).wf(),
            old(self)@.observed_as(seen@),
        ensures
            final(self).wf(),
            evicts(old(self)@, seen@, final(self)@, step),
            step matches Step::Wait { next, action } ==> next.fits(final(self)@),
    {
        let victim = choose_victim(seen, self.now());
        assert(is_victim(seen@, self@.lru_timer, victim));
        match victim {
            Victim::Entry(key) => {
                let entry = self.remove(key);
                Step::Wait {
                    next: EnsureFreeEntry {
                        key,
                        entry,
                        write_back: WriteBack::LockingDependencies,
                    },
                    action: Action::LockDependencies,
                }
            },
            Victim::Nothing => Step::Done(Err(CacheError::EverythingInUse)),
            Victim::WeaklyReferenced(key) => Step::Done(Err(CacheError::WeaklyReferenced(key))),
        }
    }

    /// Ensure there is at least one free entry in the cache.
    ///
    /// Do this by evicting (flushing) existing entries, if necessary.
    ///
    /// To be called with the exclusive lock on the map held.
    pub fn ensure_free_entry<E>(&mut self) -> (step: EnsureFreeEntryStep<K, V, D, E>)
        requires
            old(self).wf(),
        ensures
            final(self).wf(),
            starts_making_room(old(self)@, final(self)@, step),
            step matches Step::Wait { next, action } ==> next.fits(final(self)@),
            step matches Step::Done(Ok(_)) ==> final(self)@.entries.len() < final(self)@.limit,
    {
        if self.is_full() {
            let seen = self.observe();
            self.evict(&seen)
        } else {
            Step::Done(Ok(()))
        }
    }
}

impl<K, V, D: ?Sized> EnsureFreeEntry<K, V, D> {
    /// The victim is out of the map, and there is room to put it back.
    pub open spec fn fits(self, cache: CacheState<K, V, D>) -> bool {
        &&& self.entry.value is Some
        &&& !cache.entries.contains_key(self.key)
        &&& cache.entries.len() < cache.limit
        &&& self.write_back.fits(cache.flush_before)
    }

    /// How the flush of the victim goes on after `event`, and what is left of the dependencies
    /// `flush_before`.
    pub open spec fn write_back_after<E>(
        self,
        flush_before: Seq<Dependency<D>>,
        event: Event<V, D, E>,
    ) -> (Step<WriteBack<D>, Action<K, V, D>, Result<(), E>>, Seq<Dependency<D>>) {
        self.write_back.after(flush_before, self.key, self.entry.value->0, event)
    }

    /// What becomes of a cache `before`, and how making room goes on, after `event`.
    ///
    /// If the victim could not be flushed, it is put back as it was.
    pub open spec fn steps<E>(
        self,
        before: CacheState<K, V, D>,
        event: Event<V, D, E>,
        after: CacheState<K, V, D>,
        step: EnsureFreeEntryStep<K, V, D, E>,
    ) -> bool {
        let (flush, flush_before) = self.write_back_after(before.flush_before, event);
        let before = before.depending_on(flush_before);
        match flush {
            Step::Wait { next, action } => {
                &&& after == before
                &&& step.waits(EnsureFreeEntry { write_back: next, ..self }, action)
            },
            Step::Done(Ok(_)) => starts_making_room(before, after, step),
            Step::Done(Err(error)) => {
                &&& after == before.with_entry(self.key, self.entry)
                &&& step.ends(Err(CacheError::Backend(error)))
            },
        }
    }
}

impl<K: Copy + Eq + Hash, V, D: ?Sized> EnsureFreeEntry<K, V, D> {
    /// Go on with making room after `event`.
    pub fn step<E>(
        self,
        cache: &mut AsyncLruCache<K, V, D>,
        event: Event<V, D, E>,
    ) -> (step: EnsureFreeEntryStep<K, V, D, E>)
        requires
            old(cache).wf(),
            self.fits(old(cache)@),
            self.write_back.awaits(event),
        ensures
            final(cache).wf(),
            self.steps(old(cache)@, event, final(cache)@, step),
            step matches Step::Wait { next, action } ==> next.fits(final(cache)@),
            step matches Step::Done(Ok(_)) ==> final(cache)@.entries.len() < final(cache)@.limit,
    {
        let EnsureFreeEntry { key, entry, write_back } = self;
        match write_back.step(cache, key, entry.value(), event) {
            Step::Wait { next, action } => Step::Wait {
                next: EnsureFreeEntry { key, entry, write_back: next },
                action,
            },
            Step::Done(Ok(_)) => cache.ensure_free_entry(),
            Step::Done(Err(error)) => {
                cache.put_back(key, entry);
                Step::Done(Err(CacheError::Backend(error)))
            },
        }
    }
}

} // verus!
