//! Putting an object into the cache.

use crate::async_lru_cache::cache::AsyncLruCache;
use crate::async_lru_cache::error::CacheError;
use crate::async_lru_cache::eviction::{starts_making_room, EnsureFreeEntry, EnsureFreeEntryStep};
use crate::async_lru_cache::state::CacheState;
use crate::async_lru_cache::step::{Action, Event, Step};
use crate::async_lru_cache::write_back::WriteBack;
use std::hash::Hash;
use std::sync::Arc;
use vstd::prelude::*;

verus! {

/// Forced insertion of an object.
///
/// Keeps the exclusive lock on the map from the time it is granted to the end.
pub enum Insert<K, V, D: ?Sized> {
    /// Waiting for the exclusive lock on the map.
    LockingMap {
        /// Key of the entry.
        key: K,
        /// The object.
        value: Arc<V>,
    },
    /// The existing object under the key is being flushed.
    Replacing {
        /// Key of the entry.
        key: K,
        /// The object.
        value: Arc<V>,
        /// Flush of the existing object.
        write_back: WriteBack<D>,
    },
    /// Making room for the entry.
    MakingRoom {
        /// Key of the entry.
        key: K,
        /// The object.
        value: Arc<V>,
        /// Eviction of another entry.
        eviction: EnsureFreeEntry<K, V, D>,
    },
}

/// How the insertion of an object goes on.
pub type InsertStep<K, V, D, E> = Step<Insert<K, V, D>, Action<K, V, D>, Result<(), CacheError<K, E>>>;

/// What becomes of a cache `room`, and how the insertion of an object under a new key goes on,
/// when making room goes on as `made_room` says.
pub open spec fn stores_after<K, V, D: ?Sized, E>(
    key: K,
    value: Arc<V>,
    room: CacheState<K, V, D>,
    made_room: EnsureFreeEntryStep<K, V, D, E>,
    after: CacheState<K, V, D>,
    step: InsertStep<K, V, D, E>,
) -> bool {
    match made_room {
        Step::Wait { next, action } => {
            &&& after == room
            &&& step.waits(Insert::MakingRoom { key, value, eviction: next }, action)
        },
        Step::Done(Ok(_)) => {
            &&& after == room.stored(key, value)
            &&& step.ends(Ok(()))
        },
        Step::Done(Err(error)) => {
            &&& after == room
            &&& step.ends(Err(error))
        },
    }
}

impl<K, V, D: ?Sized> Insert<K, V, D> {
    /// `value` is being inserted under `key`.
    pub open spec fn for_object(self, key: K, value: Arc<V>) -> bool {
        match self {
            Insert::LockingMap { key: k, value: v } => k == key && v == value,
            Insert::Replacing { key: k, value: v, write_back: _ } => k == key && v == value,
            Insert::MakingRoom { key: k, value: v, eviction: _ } => k == key && v == value,
        }
    }

    /// What the machine waits for.
    pub open spec fn awaits<E>(self, event: Event<V, D, E>) -> bool {
        match self {
            Insert::LockingMap { .. } => event is Locked,
            Insert::Replacing { key: _, value: _, write_back } => write_back.awaits(event),
            Insert::MakingRoom { key: _, value: _, eviction } => eviction.write_back.awaits(event),
        }
    }

    /// Once the exclusive lock is held, it is settled whether there is an entry under the key.
    pub open spec fn fits(self, cache: CacheState<K, V, D>) -> bool {
        match self {
            Insert::LockingMap { .. } => true,
            Insert::Replacing { key, value: _, write_back } => {
                &&& cache.entries.contains_key(key)
                &&& write_back.fits(cache.flush_before)
            },
            Insert::MakingRoom { key, value: _, eviction } => {
                &&& !cache.entries.contains_key(key)
                &&& eviction.key != key
                &&& eviction.fits(cache)
            },
        }
    }

    /// What becomes of a cache `before`, and how the insertion goes on, after `event`.
    ///
    /// An existing entry counts as accessed from the start, and gets the new object only once the
    /// existing object was flushed, to which a reference is given out for that.
    pub open spec fn steps<E>(
        self,
        before: CacheState<K, V, D>,
        event: Event<V, D, E>,
        after: CacheState<K, V, D>,
        step: InsertStep<K, V, D, E>,
    ) -> bool {
        match self {
            Insert::LockingMap { key, value } => if before.entries.contains_key(key) {
                &&& after == before.touched(key)
                &&& step.waits(
                    Insert::Replacing { key, value, write_back: WriteBack::LockingDependencies },
                    Action::LockDependencies,
                )
            } else {
                exists|room: CacheState<K, V, D>, made_room: EnsureFreeEntryStep<K, V, D, E>|
                    #[trigger]
                    starts_making_room(before, room, made_room) && stores_after(
                        key,
                        value,
                        room,
                        made_room,
                        after,
                        step,
                    )
            },
            Insert::Replacing { key, value, write_back } => {
                let (flush, flush_before) = write_back.after(
                    before.flush_before,
                    key,
                    before.object(key),
                    event,
                );
                let before = before.lending(key).depending_on(flush_before);
                match flush {
                    Step::Wait { next, action } => {
                        &&& after == before
                        &&& step.waits(Insert::Replacing { key, value, write_back: next }, action)
                    },
                    Step::Done(Ok(_)) => {
                        &&& after == before.replaced(key, value)
                        &&& step.ends(Ok(()))
                    },
                    Step::Done(Err(error)) => {
                        &&& after == before
                        &&& step.ends(Err(CacheError::Backend(error)))
                    },
                }
            },
            Insert::MakingRoom { key, value, eviction } => {
                exists|room: CacheState<K, V, D>, made_room: EnsureFreeEntryStep<K, V, D, E>|
                    #[trigger]
                    eviction.steps(before, event, room, made_room) && stores_after(
                        key,
                        value,
                        room,
                        made_room,
                        after,
                        step,
                    )
            },
        }
    }
}

impl<K: Copy + Eq + Hash, V, D: ?Sized> AsyncLruCache<K, V, D> {
    /// Force-insert the given object into the cache.
    ///
    /// If there is an existing object under that key, it is flushed first.
    pub fn insert<E>(&self, key: K, value: Arc<V>) -> (step: InsertStep<K, V, D, E>)
        ensures
            step.waits(Insert::LockingMap { key, value }, Action::LockMapExclusive),
    {
        Step::Wait { next: Insert::LockingMap { key, value }, action: Action::LockMapExclusive }
    }

    /// Go on with the insertion of an object under a new key.
    fn store_after<E>(
        &mut self,
        key: K,
        value: Arc<V>,
        made_room: EnsureFreeEntryStep<K, V, D, E>,
    ) -> (step: InsertStep<K, V, D, E>)
        requires
            old(self).wf(),
            !old(self)@.entries.contains_key(key),
            made_room matches Step::Done(Ok(_)) ==> old(self)@.entries.len() < old(self)@.limit,
        ensures
            final(self).wf(),
            stores_after(key, value, old(self)@, made_room, final(self)@, step),
    {
        match made_room {
            Step::Wait { next, action } => Step::Wait {
                next: Insert::MakingRoom { key, value, eviction: next },
                action,
            },
            Step::Done(Ok(_)) => {
                self.store(key, value);
                Step::Done(Ok(()))
            },
            Step::Done(Err(error)) => Step::Done(Err(error)),
        }
    }
}

impl<K: Copy + Eq + Hash, V, D: ?Sized> Insert<K, V, D> {
    /// Go on with the insertion after `event`.
    pub fn step<E>(
        self,
        cache: &mut AsyncLruCache<K, V, D>,
        event: Event<V, D, E>,
    ) -> (step: InsertStep<K, V, D, E>)
        requires
            old(cache).wf(),
            self.fits(old(cache)@),
            self.awaits(event),
        ensures
            final(cache).wf(),
            self.steps(old(cache)@, event, final(cache)@, step),
            step matches Step::Wait { next, action } ==> next.fits(final(cache)@),
    {
        match self {
            Insert::LockingMap { key, value } => match cache.touch(key) {
                Some(_) => Step::Wait {
                    next: Insert::Replacing {
                        key,
                        value,
                        write_back: WriteBack::LockingDependencies,
                    },
                    action: Action::LockDependencies,
                },
                None => {
                    let made_room = cache.ensure_free_entry();
                    cache.store_after(key, value, made_room)
                },
            },
            Insert::Replacing { key, value, write_back } => {
                let existing = match cache.peek(key) {
                    Some(existing) => existing,
                    None => vstd::pervasive::unreached(),
                };
                match write_back.step(cache, key, &existing, event) {
                    Step::Wait { next, action } => Step::Wait {
                        next: Insert::Replacing { key, value, write_back: next },
                        action,
                    },
                    Step::Done(Ok(_)) => {
                        cache.replace(key, value);
                        Step::Done(Ok(()))
                    },
                    Step::Done(Err(error)) => Step::Done(Err(CacheError::Backend(error))),
                }
            },
            Insert::MakingRoom { key, value, eviction } => {
                let made_room = eviction.step(cache, event);
                cache.store_after(key, value, made_room)
            },
        }
    }
}

} // verus!
