//! What the cache promises of objects that something outside of it holds on to.

use crate::async_lru_cache::depend_on::{DependOn, DependOnStep};
use crate::async_lru_cache::entry::{held, tried};
use crate::async_lru_cache::eviction::{starts_making_room, EnsureFreeEntry, EnsureFreeEntryStep};
use crate::async_lru_cache::eviction_laws::law_in_use_is_not_evicted;
use crate::async_lru_cache::flush::{Flush, FlushStep};
use crate::async_lru_cache::get_or_insert::{caches_after, GetOrInsert, GetOrInsertStep};
use crate::async_lru_cache::insert::{stores_after, Insert, InsertStep};
use crate::async_lru_cache::invalidate::{invalidates_next, settles_next, Invalidate, InvalidateStep};
use crate::async_lru_cache::laws::law_get_hits;
use crate::async_lru_cache::state::CacheState;
use crate::async_lru_cache::step::{Action, Event, Step};
use std::sync::Arc;
use vstd::prelude::*;

verus! {

/// `object` is cached under `key`.
pub open spec fn caches<K, V, D: ?Sized>(
    cache: CacheState<K, V, D>,
    key: K,
    object: Arc<V>,
) -> bool {
    cache.entries.contains_key(key) && cache.entries[key].value == Some(object)
}

/// A step of making room leaves an object that is held in the cache.
pub proof fn law_making_room_keeps_held<K, V, D: ?Sized, E>(
    eviction: EnsureFreeEntry<K, V, D>,
    key: K,
    object: Arc<V>,
    before: CacheState<K, V, D>,
    event: Event<V, D, E>,
    after: CacheState<K, V, D>,
    step: EnsureFreeEntryStep<K, V, D, E>,
)
    requires
        held(object),
        caches(before, key, object),
        eviction.fits(before),
        eviction.steps(before, event, after, step),
    ensures
        caches(after, key, object),
{
    let (flush, flush_before) = eviction.write_back_after(before.flush_before, event);
    if flush matches Step::Done(Ok(_)) {
        law_in_use_is_not_evicted(before.depending_on(flush_before), after, step, key);
    }
}

/// Retrieving an entry, under whatever key, leaves an object that is held in the cache.
pub proof fn law_get_keeps_held<K, V, D: ?Sized, E>(
    machine: GetOrInsert<K, V, D>,
    key: K,
    object: Arc<V>,
    before: CacheState<K, V, D>,
    event: Event<V, D, E>,
    after: CacheState<K, V, D>,
    step: GetOrInsertStep<K, V, D, E>,
)
    requires
        held(object),
        caches(before, key, object),
        machine.fits(before),
        machine.awaits(event),
        machine.steps(before, event, after, step),
    ensures
        caches(after, key, object),
{
    match machine {
        GetOrInsert::LockingShared { .. } | GetOrInsert::LockingExclusive { .. } => {},
        GetOrInsert::Loading { key: other } => {
            if let Ok(loaded) = event->Loaded_0 {
                let (value, room, made_room) = choose|
                    value: Arc<V>,
                    room: CacheState<K, V, D>,
                    made_room: EnsureFreeEntryStep<K, V, D, E>,
                |
                    {
                        &&& *value == loaded
                        &&& starts_making_room(before, room, made_room)
                        &&& #[trigger] caches_after(other, value, room, made_room, after, step)
                    };
                law_in_use_is_not_evicted(before, room, made_room, key);
            }
        },
        GetOrInsert::MakingRoom { key: other, value, eviction } => {
            let (room, made_room) = choose|
                room: CacheState<K, V, D>,
                made_room: EnsureFreeEntryStep<K, V, D, E>,
            | #[trigger]
                eviction.steps(before, event, room, made_room) && caches_after(
                    other,
                    value,
                    room,
                    made_room,
                    after,
                    step,
                );
            law_making_room_keeps_held(eviction, key, object, before, event, room, made_room);
        },
    }
}

/// Inserting an object under another key leaves an object that is held in the cache.
pub proof fn law_insert_keeps_held<K, V, D: ?Sized, E>(
    machine: Insert<K, V, D>,
    other: K,
    value: Arc<V>,
    key: K,
    object: Arc<V>,
    before: CacheState<K, V, D>,
    event: Event<V, D, E>,
    after: CacheState<K, V, D>,
    step: InsertStep<K, V, D, E>,
)
    requires
        held(object),
        caches(before, key, object),
        machine.for_object(other, value),
        other != key,
        machine.fits(before),
        machine.awaits(event),
        machine.steps(before, event, after, step),
    ensures
        caches(after, key, object),
{
    match machine {
        Insert::LockingMap { .. } => {
            if !before.entries.contains_key(other) {
                let (room, made_room) = choose|
                    room: CacheState<K, V, D>,
                    made_room: EnsureFreeEntryStep<K, V, D, E>,
                | #[trigger]
                    starts_making_room(before, room, made_room) && stores_after(
                        other,
                        value,
                        room,
                        made_room,
                        after,
                        step,
                    );
                law_in_use_is_not_evicted(before, room, made_room, key);
            }
        },
        Insert::Replacing { .. } => {},
        Insert::MakingRoom { key: _, value: _, eviction } => {
            let (room, made_room) = choose|
                room: CacheState<K, V, D>,
                made_room: EnsureFreeEntryStep<K, V, D, E>,
            | #[trigger]
                eviction.steps(before, event, room, made_room) && stores_after(
                    other,
                    value,
                    room,
                    made_room,
                    after,
                    step,
                );
            law_making_room_keeps_held(eviction, key, object, before, event, room, made_room);
        },
    }
}

/// Invalidation hands an object to the back end only if it could be unwrapped, and retains an
/// entry only if its object could not.
pub proof fn law_invalidate_goes_by_unwrapping<K, V, D: ?Sized, E>(
    machine: Invalidate<K>,
    before: CacheState<K, V, D>,
    after: CacheState<K, V, D>,
    step: InvalidateStep<K, V, D, E>,
)
    requires
        machine.fits(before),
        machine.steps(before, after, step),
    ensures
        step matches Step::Wait { next: _, action } ==> match action {
            Action::Evict { key, object } => tried(
                before.object(key),
                before.lent[key],
                Ok(object),
            ),
            Action::Retain { key } => exists|unwrapped: Result<V, Arc<V>>| #[trigger]
                tried(before.object(key), before.lent[key], unwrapped) && unwrapped is Err,
            _ => true,
        },
{
    if let Invalidate::Evicting { keys, done, in_use } = machine {
        lemma_settled_by_unwrapping(keys@, done as int, in_use@, before, after, step);
    } else if machine is LockingMap {
        let keys = choose|keys: Seq<K>| #[trigger]
            before.keyed_by(keys) && invalidates_next(
                keys,
                0,
                Seq::empty(),
                before,
                after,
                step,
            );
        lemma_settled_by_unwrapping(keys, 0, Seq::empty(), before, after, step);
    }
}

/// What is done with the next entry goes by whether its object could be unwrapped.
proof fn lemma_settled_by_unwrapping<K, V, D: ?Sized, E>(
    keys: Seq<K>,
    done: int,
    in_use: Seq<K>,
    before: CacheState<K, V, D>,
    after: CacheState<K, V, D>,
    step: InvalidateStep<K, V, D, E>,
)
    requires
        invalidates_next(keys, done, in_use, before, after, step),
    ensures
        step matches Step::Wait { next: _, action } ==> match action {
            Action::Evict { key, object } => tried(
                before.object(key),
                before.lent[key],
                Ok(object),
            ),
            Action::Retain { key } => exists|unwrapped: Result<V, Arc<V>>| #[trigger]
                tried(before.object(key), before.lent[key], unwrapped) && unwrapped is Err,
            _ => true,
        },
{
    if done < keys.len() {
        let unwrapped = choose|unwrapped: Result<V, Arc<V>>| #[trigger]
            tried(before.object(keys[done]), before.lent[keys[done]], unwrapped) && settles_next(
                keys,
                done,
                in_use,
                before,
                unwrapped,
                after,
                step,
            );
        if unwrapped is Err {
            assert(tried(
                before.object(step->action->Retain_key),
                before.lent[step->action->Retain_key],
                unwrapped,
            ));
        }
    }
}

/// Invalidation leaves an object that is held in the cache.
pub proof fn law_invalidate_keeps_held<K, V, D: ?Sized, E>(
    machine: Invalidate<K>,
    key: K,
    object: Arc<V>,
    before: CacheState<K, V, D>,
    after: CacheState<K, V, D>,
    step: InvalidateStep<K, V, D, E>,
)
    requires
        held(object),
        caches(before, key, object),
        machine.steps(before, after, step),
    ensures
        caches(after, key, object),
{
}

/// A step of some operation turns the cache `before` into `after`; it is no insertion under `key`.
pub open spec fn operates<K, V, D: ?Sized, E>(
    key: K,
    before: CacheState<K, V, D>,
    after: CacheState<K, V, D>,
) -> bool {
    ||| exists|
        machine: GetOrInsert<K, V, D>,
        event: Event<V, D, E>,
        step: GetOrInsertStep<K, V, D, E>,
    |
        {
            &&& machine.fits(before)
            &&& machine.awaits(event)
            &&& #[trigger] machine.steps(before, event, after, step)
        }
    ||| exists|
        machine: Insert<K, V, D>,
        other: K,
        value: Arc<V>,
        event: Event<V, D, E>,
        step: InsertStep<K, V, D, E>,
    |
        {
            &&& #[trigger] machine.for_object(other, value)
            &&& other != key
            &&& machine.fits(before)
            &&& machine.awaits(event)
            &&& #[trigger] machine.steps(before, event, after, step)
        }
    ||| exists|machine: Flush<D, E>, event: Event<V, D, E>, step: FlushStep<K, V, D, E>|
        {
            &&& machine.fits(before)
            &&& machine.awaits(event)
            &&& #[trigger] machine.steps(before, event, after, step)
        }
    ||| exists|machine: Invalidate<K>, step: InvalidateStep<K, V, D, E>|
        {
            &&& machine.fits(before)
            &&& #[trigger] machine.steps(before, after, step)
        }
    ||| exists|machine: DependOn<D>, event: Event<V, D, E>, step: DependOnStep<K, V, D, E>|
        {
            &&& machine.fits(before)
            &&& machine.awaits(event)
            &&& #[trigger] machine.steps(before, event, after, step)
        }
}

/// An object that is held stays in the cache through a step of any operation but an insertion
/// under its own key.
proof fn lemma_operation_keeps_held<K, V, D: ?Sized, E>(
    key: K,
    object: Arc<V>,
    before: CacheState<K, V, D>,
    after: CacheState<K, V, D>,
)
    requires
        held(object),
        caches(before, key, object),
        operates::<K, V, D, E>(key, before, after),
    ensures
        caches(after, key, object),
{
    if exists|
        machine: GetOrInsert<K, V, D>,
        event: Event<V, D, E>,
        step: GetOrInsertStep<K, V, D, E>,
    |
        {
            &&& machine.fits(before)
            &&& machine.awaits(event)
            &&& #[trigger] machine.steps(before, event, after, step)
        } {
        let (machine, event, step) = choose|
            machine: GetOrInsert<K, V, D>,
            event: Event<V, D, E>,
            step: GetOrInsertStep<K, V, D, E>,
        |
            {
                &&& machine.fits(before)
                &&& machine.awaits(event)
                &&& #[trigger] machine.steps(before, event, after, step)
            };
        law_get_keeps_held(machine, key, object, before, event, after, step);
    } else if exists|
        machine: Insert<K, V, D>,
        other: K,
        value: Arc<V>,
        event: Event<V, D, E>,
        step: InsertStep<K, V, D, E>,
    |
        {
            &&& #[trigger] machine.for_object(other, value)
            &&& other != key
            &&& machine.fits(before)
            &&& machine.awaits(event)
            &&& #[trigger] machine.steps(before, event, after, step)
        } {
        let (machine, other, value, event, step) = choose|
            machine: Insert<K, V, D>,
            other: K,
            value: Arc<V>,
            event: Event<V, D, E>,
            step: InsertStep<K, V, D, E>,
        |
            {
                &&& #[trigger] machine.for_object(other, value)
                &&& other != key
                &&& machine.fits(before)
                &&& machine.awaits(event)
                &&& #[trigger] machine.steps(before, event, after, step)
            };
        law_insert_keeps_held(machine, other, value, key, object, before, event, after, step);
    } else if exists|machine: Invalidate<K>, step: InvalidateStep<K, V, D, E>|
        {
            &&& machine.fits(before)
            &&& #[trigger] machine.steps(before, after, step)
        } {
        let (machine, step) = choose|machine: Invalidate<K>, step: InvalidateStep<K, V, D, E>|
            {
                &&& machine.fits(before)
                &&& #[trigger] machine.steps(before, after, step)
            };
        law_invalidate_keeps_held(machine, key, object, before, after, step);
    }
}

/// As long as an object is held, it stays in the cache, whatever operations go on, unless another
/// one is inserted under its key; and retrieving it gives that object without loading it again.
pub proof fn law_held_is_retrieved_again<K, V, D: ?Sized, E>(
    key: K,
    object: Arc<V>,
    states: Seq<CacheState<K, V, D>>,
    after: CacheState<K, V, D>,
    step: GetOrInsertStep<K, V, D, E>,
)
    requires
        held(object),
        states.len() > 0,
        caches(states.first(), key, object),
        forall|i: int|
            0 <= i < states.len() - 1 ==> operates::<K, V, D, E>(
                key,
                #[trigger] states[i],
                states[i + 1],
            ),
        (GetOrInsert::LockingShared { key }).steps(states.last(), Event::Locked, after, step),
    ensures
        caches(states.last(), key, object),
        step.ends(Ok(object)),
{
    lemma_operations_keep_held::<K, V, D, E>(key, object, states);
    law_get_hits(key, states.last(), after, step);
}

/// An object that is held stays in the cache through any operations but an insertion under its
/// own key.
proof fn lemma_operations_keep_held<K, V, D: ?Sized, E>(
    key: K,
    object: Arc<V>,
    states: Seq<CacheState<K, V, D>>,
)
    requires
        held(object),
        states.len() > 0,
        caches(states.first(), key, object),
        forall|i: int|
            0 <= i < states.len() - 1 ==> operates::<K, V, D, E>(
                key,
                #[trigger] states[i],
                states[i + 1],
            ),
    ensures
        caches(states.last(), key, object),
    decreases states.len(),
{
    if states.len() > 1 {
        let shorter = states.drop_last();
        assert forall|i: int| 0 <= i < shorter.len() - 1 implies operates::<K, V, D, E>(
            key,
            #[trigger] shorter[i],
            shorter[i + 1],
        ) by {
            assert(shorter[i] == states[i]);
        }
        lemma_operations_keep_held::<K, V, D, E>(key, object, shorter);
        let n = states.len() - 2;
        assert(operates::<K, V, D, E>(key, states[n], states[n + 1]));
        lemma_operation_keeps_held::<K, V, D, E>(key, object, states[n], states[n + 1]);
    }
}

} // verus!
