//! Retrieving an entry.

use crate::async_lru_cache::cache::AsyncLruCache;
use crate::async_lru_cache::error::CacheError;
use crate::async_lru_cache::eviction::{starts_making_room, EnsureFreeEntry, EnsureFreeEntryStep};
use crate::async_lru_cache::state::CacheState;
use crate::async_lru_cache::step::{Action, Event, Step};
use std::hash::Hash;
use std::sync::Arc;
use vstd::prelude::*;

verus! {

/// Retrieval of an entry.
///
/// Holds the shared lock on the map for the first look at it.  If there is no entry, the shared
/// lock is exchanged for the exclusive one, which is kept to the end.  The object is loaded first,
/// and only then is room made for it.
pub enum GetOrInsert<K, V, D: ?Sized> {
    /// Waiting for the shared lock on the map.
    LockingShared {
        /// Key of the entry.
        key: K,
    },
    /// Waiting for the exclusive lock on the map.
    LockingExclusive {
        /// Key of the entry.
        key: K,
    },
    /// The object is being loaded.
    Loading {
        /// Key of the entry.
        key: K,
    },
    /// Making room for the entry.
    MakingRoom {
        /// Key of the entry.
        key: K,
        /// The object.
        value: Arc<V>,
        /// Eviction of another entry.
        eviction: EnsureFreeEntry<K, V, D>,
    },
}

/// How the retrieval of an entry goes on.
pub type GetOrInsertStep<K, V, D, E> = Step<
    GetOrInsert<K, V, D>,
    Action<K, V, D>,
    Result<Arc<V>, CacheError<K, E>>,
>;

/// The entry under `key` is in the cache `before`: it is accessed, and its object returned.
pub open spec fn hits<K, V, D: ?Sized, E>(
    key: K,
    before: CacheState<K, V, D>,
    after: CacheState<K, V, D>,
    step: GetOrInsertStep<K, V, D, E>,
) -> bool {
    &&& before.entries.contains_key(key)
    &&& after == before.touched(key)
    &&& step.ends(Ok(before.object(key)))
}

/// What becomes of a cache `room`, and how the retrieval of an entry whose object was loaded goes
/// on, when making room goes on as `made_room` says.
pub open spec fn caches_after<K, V, D: ?Sized, E>(
    key: K,
    value: Arc<V>,
    room: CacheState<K, V, D>,
    made_room: EnsureFreeEntryStep<K, V, D, E>,
    after: CacheState<K, V, D>,
    step: GetOrInsertStep<K, V, D, E>,
) -> bool {
    match made_room {
        Step::Wait { next, action } => {
            &&& after == room
            &&& step.waits(GetOrInsert::MakingRoom { key, value, eviction: next }, action)
        },
        Step::Done(Ok(_)) => {
            &&& after == room.stored(key, value)
            &&& step.ends(Ok(value))
        },
        Step::Done(Err(error)) => {
            &&& after == room
            &&& step.ends(Err(error))
        },
    }
}

impl<K, V, D: ?Sized> GetOrInsert<K, V, D> {
    /// The entry under `key` is being retrieved.
    pub open spec fn for_key(self, key: K) -> bool {
        match self {
            GetOrInsert::LockingShared { key: k } => k == key,
            GetOrInsert::LockingExclusive { key: k } => k == key,
            GetOrInsert::Loading { key: k } => k == key,
            GetOrInsert::MakingRoom { key: k, value: _, eviction: _ } => k == key,
        }
    }

    /// What the machine waits for.
    pub open spec fn awaits<E>(self, event: Event<V, D, E>) -> bool {
        match self {
            GetOrInsert::LockingShared { .. } => event is Locked,
            GetOrInsert::LockingExclusive { .. } => event is Locked,
            GetOrInsert::Loading { .. } => event is Loaded,
            GetOrInsert::MakingRoom { key: _, value: _, eviction } => eviction.write_back.awaits(
                event,
            ),
        }
    }

    /// Once the exclusive lock is held, there is no entry under the key.
    pub open spec fn fits(self, cache: CacheState<K, V, D>) -> bool {
        match self {
            GetOrInsert::LockingShared { .. } => true,
            GetOrInsert::LockingExclusive { .. } => true,
            GetOrInsert::Loading { key } => !cache.entries.contains_key(key),
            GetOrInsert::MakingRoom { key, value: _, eviction } => {
                &&& !cache.entries.contains_key(key)
                &&& eviction.key != key
                &&& eviction.fits(cache)
            },
        }
    }

    /// What becomes of a cache `before`, and how the retrieval goes on, after `event`.
    pub open spec fn steps<E>(
        self,
        before: CacheState<K, V, D>,
        event: Event<V, D, E>,
        after: CacheState<K, V, D>,
        step: GetOrInsertStep<K, V, D, E>,
    ) -> bool {
        match self {
            GetOrInsert::LockingShared { key } => {
                ||| hits(key, before, after, step)
                ||| {
                    &&& !before.entries.contains_key(key)
                    &&& after == before
                    &&& step.waits(GetOrInsert::LockingExclusive { key }, Action::LockMapExclusive)
                }
            },
            GetOrInsert::LockingExclusive { key } => {
                ||| hits(key, before, after, step)
                ||| {
                    &&& !before.entries.contains_key(key)
                    &&& after == before
                    &&& step.waits(GetOrInsert::Loading { key }, Action::Load { key })
                }
            },
            GetOrInsert::Loading { key } => match event->Loaded_0 {
                Ok(object) => exists|
                    value: Arc<V>,
                    room: CacheState<K, V, D>,
                    made_room: EnsureFreeEntryStep<K, V, D, E>,
                |
                    {
                        &&& *value == object
                        &&& starts_making_room(before, room, made_room)
                        &&& #[trigger] caches_after(key, value, room, made_room, after, step)
                    },
                Err(error) => {
                    &&& after == before
                    &&& step.ends(Err(CacheError::Backend(error)))
                },
            },
            GetOrInsert::MakingRoom { key, value, eviction } => {
                exists|room: CacheState<K, V, D>, made_room: EnsureFreeEntryStep<K, V, D, E>|
                    #[trigger]
                    eviction.steps(before, event, room, made_room) && caches_after(
                        key,
                        value,
                        room,
                        made_room,
                        after,
                        step,
                    )
            },
        }
    }
}

impl<K: Copy + Eq + Hash, V, D: ?Sized> AsyncLruCache<K, V, D> {
    /// Retrieve an entry from the cache.
    ///
    /// If there is no entry yet, let the back end load it.  If then there would be more entries in
    /// the cache than its limit, flush out the oldest entry.
    ///
    /// Users must not create weak references to the object that the operation ends with.
    pub fn get_or_insert<E>(&self, key: K) -> (step: GetOrInsertStep<K, V, D, E>)
        ensures
            step.waits(GetOrInsert::LockingShared { key }, Action::LockMapShared),
    {
        Step::Wait { next: GetOrInsert::LockingShared { key }, action: Action::LockMapShared }
    }

    /// Go on with the retrieval of an entry whose object was loaded.
    fn cache_after<E>(
        &mut self,
        key: K,
        value: Arc<V>,
        made_room: EnsureFreeEntryStep<K, V, D, E>,
    ) -> (step: GetOrInsertStep<K, V, D, E>)
        requires
            old(self).wf(),
            !old(self)@.entries.contains_key(key),
            made_room matches Step::Done(Ok(_)) ==> old(self)@.entries.len() < old(self)@.limit,
        ensures
            final(self).wf(),
            caches_after(key, value, old(self)@, made_room, final(self)@, step),
    {
        match made_room {
            Step::Wait { next, action } => Step::Wait {
                next: GetOrInsert::MakingRoom { key, value, eviction: next },
                action,
            },
            Step::Done(Ok(_)) => {
                self.store(key, Arc::clone(&value));
                Step::Done(Ok(value))
            },
            Step::Done(Err(error)) => Step::Done(Err(error)),
        }
    }
}

impl<K: Copy + Eq + Hash, V, D: ?Sized> GetOrInsert<K, V, D> {
    /// Go on with the retrieval after `event`.
    pub fn step<E>(
        self,
        cache: &mut AsyncLruCache<K, V, D>,
        event: Event<V, D, E>,
    ) -> (step: GetOrInsertStep<K, V, D, E>)
        requires
            old(cache).wf(),
            self.fits(old(cache)@),
            self.awaits(event),
        ensures
            final(cache).wf(),
            self.steps(old(cache)@, event, final(cache)@, step),
            step matches Step::Wait { next, action } ==> next.fits(final(cache)@),
    {
        match self {
            GetOrInsert::LockingShared { key } => match cache.touch(key) {
                Some(object) => Step::Done(Ok(object)),
                None => Step::Wait {
                    next: GetOrInsert::LockingExclusive { key },
                    action: Action::LockMapExclusive,
                },
            },
            GetOrInsert::LockingExclusive { key } => match cache.touch(key) {
                Some(object) => Step::Done(Ok(object)),
                None => Step::Wait {
                    next: GetOrInsert::Loading { key },
                    action: Action::Load { key },
                },
            },
            GetOrInsert::Loading { key } => match event {
                Event::Loaded(Ok(object)) => {
                    let value = Arc::new(object);
                    let made_room = cache.ensure_free_entry();
                    cache.cache_after(key, value, made_room)
                },
                Event::Loaded(Err(error)) => Step::Done(Err(CacheError::Backend(error))),
                _ => vstd::pervasive::unreached(),
            },
            GetOrInsert::MakingRoom { key, value, eviction } => {
                let made_room = eviction.step(cache, event);
                cache.cache_after(key, value, made_room)
            },
        }
    }
}

} // verus!
