//! What operations end with, and what they ask of the back end.

use crate::async_lru_cache::entry::{counted, unheld, Observation};
use crate::async_lru_cache::error::CacheError;
use crate::async_lru_cache::eviction::{
    evicts, evicts_victim, is_victim, starts_making_room, weakly_referenced, EnsureFreeEntry,
    EnsureFreeEntryStep, Victim,
};
use crate::async_lru_cache::eviction_laws::{law_unused_makes_room, lemma_starting};
use crate::async_lru_cache::flush::{Flush, FlushStep};
use crate::async_lru_cache::get_or_insert::{caches_after, GetOrInsert, GetOrInsertStep};
use crate::async_lru_cache::insert::{stores_after, Insert, InsertStep};
use crate::async_lru_cache::invalidate::{invalidates_next, Invalidate, InvalidateStep};
use crate::async_lru_cache::state::CacheState;
use crate::async_lru_cache::step::{Action, Event, Step};
use std::sync::Arc;
use vstd::prelude::*;

verus! {

/// Making room in a full cache gives out no reference to any object that stays, and changes
/// nothing but that the victim is gone.
pub proof fn law_making_room_lends_nothing<K, V, D: ?Sized, E>(
    before: CacheState<K, V, D>,
    after: CacheState<K, V, D>,
    step: EnsureFreeEntryStep<K, V, D, E>,
    key: K,
)
    requires
        starts_making_room(before, after, step),
    ensures
        match step {
            Step::Wait { next, action } => {
                &&& before.entries.contains_key(next.key)
                &&& next.entry == before.entries[next.key]
                &&& !after.entries.contains_key(next.key)
                &&& key != next.key ==> {
                    &&& after.entries.contains_key(key) == before.entries.contains_key(key)
                    &&& after.entries[key] == before.entries[key]
                    &&& after.lent[key] == before.lent[key]
                }
                &&& action is LockDependencies
            },
            Step::Done(_) => {
                &&& after.entries == before.entries
                &&& after.lent == before.lent
            },
        },
        after.flush_before == before.flush_before,
        after.lru_timer == before.lru_timer,
        after.limit == before.limit,
{
    lemma_starting(before, after, step);
}

/// Why making room failed to start: the cache is full, and for every entry, more than one
/// reference, or none, was counted, or for one entry that nothing else holds on to, a weak
/// reference was.
pub open spec fn cannot_make_room<K, V, D: ?Sized, E>(
    cache: CacheState<K, V, D>,
    error: CacheError<K, E>,
) -> bool {
    &&& cache.entries.len() >= cache.limit
    &&& match error {
        CacheError::EverythingInUse => forall|k: K| #[trigger]
            cache.entries.contains_key(k) ==> exists|strong: usize, weak: usize| #[trigger]
                counted(cache.object(k), cache.lent[k], strong, weak) && strong != 1,
        CacheError::WeaklyReferenced(k) => {
            &&& cache.entries.contains_key(k)
            &&& exists|weak: usize| #[trigger]
                counted(cache.object(k), cache.lent[k], 1, weak) && weak != 0
        },
        _ => false,
    }
}

/// Making room does not start for two reasons only: everything is in use, or something has a weak
/// reference.
pub proof fn law_room_is_refused_for_a_reason<K, V, D: ?Sized, E>(
    before: CacheState<K, V, D>,
    after: CacheState<K, V, D>,
    step: EnsureFreeEntryStep<K, V, D, E>,
)
    requires
        starts_making_room(before, after, step),
    ensures
        step matches Step::Done(Err(error)) ==> cannot_make_room(before, error),
        step matches Step::Done(Ok(_)) ==> before.entries.len() < before.limit,
        before.entries.len() < before.limit ==> step.ends(Ok(())),
{
    if before.entries.len() >= before.limit {
        let seen = choose|seen: Seq<Observation<K>>| #[trigger]
            before.observed_as(seen) && before.counted_as(seen) && evicts(
                before,
                seen,
                after,
                step,
            );
        let victim = choose|victim: Victim<K>| #[trigger]
            is_victim(seen, before.lru_timer, victim) && evicts_victim(before, victim, after, step);
        match victim {
            Victim::Entry(_) => {},
            Victim::Nothing => {
                assert forall|k: K| #[trigger] before.entries.contains_key(k) implies exists|
                    strong: usize,
                    weak: usize,
                | #[trigger]
                    counted(before.object(k), before.lent[k], strong, weak) && strong != 1 by {
                    let i = choose|i: int| 0 <= i < seen.len() && (#[trigger] seen[i]).key == k;
                    assert(counted(
                        before.object(seen[i].key),
                        before.lent[seen[i].key],
                        seen[i].strong_count,
                        seen[i].weak_count,
                    ));
                    assert(!seen[i].unused());
                }
            },
            Victim::WeaklyReferenced(key) => {
                let i = choose|i: int| #[trigger]
                    weakly_referenced(seen, i) && seen[i].key == key && forall|j: int|
                        j < i ==> !weakly_referenced(seen, j);
                assert(before.entries.contains_key(seen[i].key));
                assert(counted(
                    before.object(seen[i].key),
                    before.lent[seen[i].key],
                    seen[i].strong_count,
                    seen[i].weak_count,
                ));
            },
        }
    }
}

/// If all references that a full cache has given out were dropped, retrieving another entry evicts
/// one once the object was loaded, and does not fail.
pub proof fn law_get_makes_room_if_unheld<K, V, D: ?Sized, E>(
    key: K,
    before: CacheState<K, V, D>,
    object: V,
    after: CacheState<K, V, D>,
    step: GetOrInsertStep<K, V, D, E>,
)
    requires
        !before.entries.is_empty(),
        before.entries.len() >= before.limit,
        forall|k: K| #[trigger]
            before.entries.contains_key(k) ==> unheld(before.object(k), before.lent[k]),
        (GetOrInsert::Loading { key }).steps(before, Event::Loaded(Ok(object)), after, step),
    ensures
        step matches Step::Wait {
            next: GetOrInsert::MakingRoom { key: same_key, value, eviction },
            action: Action::LockDependencies,
        } && {
            &&& same_key == key
            &&& *value == object
            &&& before.entries.contains_key(eviction.key)
            &&& eviction.entry == before.entries[eviction.key]
            &&& after == before.without(eviction.key)
        },
{
    let (value, room, made_room) = choose|
        value: Arc<V>,
        room: CacheState<K, V, D>,
        made_room: EnsureFreeEntryStep<K, V, D, E>,
    |
        {
            &&& *value == object
            &&& starts_making_room(before, room, made_room)
            &&& #[trigger] caches_after(key, value, room, made_room, after, step)
        };
    lemma_unheld_makes_room(before, room, made_room);
}

/// If all references that a full cache has given out were dropped, inserting an object under a new
/// key evicts an entry, and does not fail.
pub proof fn law_insert_makes_room_if_unheld<K, V, D: ?Sized, E>(
    key: K,
    value: Arc<V>,
    before: CacheState<K, V, D>,
    after: CacheState<K, V, D>,
    step: InsertStep<K, V, D, E>,
)
    requires
        !before.entries.is_empty(),
        before.entries.len() >= before.limit,
        !before.entries.contains_key(key),
        forall|k: K| #[trigger]
            before.entries.contains_key(k) ==> unheld(before.object(k), before.lent[k]),
        (Insert::LockingMap { key, value }).steps(before, Event::Locked, after, step),
    ensures
        step matches Step::Wait {
            next: Insert::MakingRoom { key: same_key, value: same_value, eviction },
            action: Action::LockDependencies,
        } && {
            &&& same_key == key
            &&& same_value == value
            &&& before.entries.contains_key(eviction.key)
            &&& eviction.entry == before.entries[eviction.key]
            &&& after == before.without(eviction.key)
        },
{
    let (room, made_room) = choose|
        room: CacheState<K, V, D>,
        made_room: EnsureFreeEntryStep<K, V, D, E>,
    | #[trigger]
        starts_making_room(before, room, made_room) && stores_after(
            key,
            value,
            room,
            made_room,
            after,
            step,
        );
    lemma_unheld_makes_room(before, room, made_room);
}

/// If all references that a full cache has given out were dropped, there is something to evict.
proof fn lemma_unheld_makes_room<K, V, D: ?Sized, E>(
    before: CacheState<K, V, D>,
    after: CacheState<K, V, D>,
    step: EnsureFreeEntryStep<K, V, D, E>,
)
    requires
        !before.entries.is_empty(),
        before.entries.len() >= before.limit,
        forall|k: K| #[trigger]
            before.entries.contains_key(k) ==> unheld(before.object(k), before.lent[k]),
        starts_making_room(before, after, step),
    ensures
        step is Wait,
        before.entries.contains_key(step->next.key),
        step->next.entry == before.entries[step->next.key],
        step->action is LockDependencies,
        after == before.without(step->next.key),
{
    let some = choose|k: K| before.entries.contains_key(k);
    assert(before.entries.contains_key(some)) by {
        if !before.entries.contains_key(some) {
            assert(before.entries.dom() =~= Set::empty());
            assert(before.entries =~= Map::empty());
        }
    }
    law_unused_makes_room(before, after, step, some);
    lemma_starting(before, after, step);
}

/// Retrieving an entry ends with the object in the cache, or with the object that was loaded, and
/// gives out one reference to it.
pub proof fn law_get_gives_the_object<K, V, D: ?Sized, E>(
    machine: GetOrInsert<K, V, D>,
    key: K,
    before: CacheState<K, V, D>,
    event: Event<V, D, E>,
    after: CacheState<K, V, D>,
    step: GetOrInsertStep<K, V, D, E>,
    object: Arc<V>,
)
    requires
        machine.for_key(key),
        machine.fits(before),
        machine.awaits(event),
        machine.steps(before, event, after, step),
        step.ends(Ok(object)),
    ensures
        match machine {
            GetOrInsert::LockingShared { .. } | GetOrInsert::LockingExclusive { .. } => {
                &&& before.entries.contains_key(key)
                &&& object == before.object(key)
                &&& after.lent[key] == before.lent[key] + 1
            },
            GetOrInsert::Loading { .. } => {
                &&& !before.entries.contains_key(key)
                &&& event->Loaded_0 == Ok::<V, E>(*object)
            },
            GetOrInsert::MakingRoom { key: _, value, eviction } => {
                &&& object == value
                &&& eviction.write_back is FlushingEntry
                &&& event->Flushed_0 is Ok
            },
        },
        forall|k: K| #[trigger]
            after.entries.contains_key(k) && k != key ==> before.entries.contains_key(k)
                && after.entries[k] == before.entries[k] && after.lent[k] == before.lent[k],
{
    match machine {
        GetOrInsert::Loading { .. } => {
            let (value, room, made_room) = choose|
                value: Arc<V>,
                room: CacheState<K, V, D>,
                made_room: EnsureFreeEntryStep<K, V, D, E>,
            |
                {
                    &&& *value == event->Loaded_0->Ok_0
                    &&& starts_making_room(before, room, made_room)
                    &&& #[trigger] caches_after(key, value, room, made_room, after, step)
                };
            lemma_starting(before, room, made_room);
        },
        _ => {},
    }
}

/// Retrieving an entry fails with the error of the load or flush that failed, or because there is
/// no room; and if a load or flush fails, it fails with that error.  Either way no new entry is
/// there.
pub proof fn law_get_fails_for_a_reason<K, V, D: ?Sized, E>(
    machine: GetOrInsert<K, V, D>,
    key: K,
    before: CacheState<K, V, D>,
    event: Event<V, D, E>,
    after: CacheState<K, V, D>,
    step: GetOrInsertStep<K, V, D, E>,
)
    requires
        machine.for_key(key),
        machine.fits(before),
        machine.awaits(event),
        machine.steps(before, event, after, step),
    ensures
        step matches Step::Done(Err(error)) ==> {
            &&& !after.entries.contains_key(key)
            &&& match error {
                CacheError::Backend(cause) => {
                    ||| machine is Loading && event->Loaded_0 == Err::<V, E>(cause)
                    ||| machine is MakingRoom && event->Flushed_0 == Err::<(), E>(cause)
                },
                _ => {
                    &&& machine is Loading
                    &&& event->Loaded_0 is Ok
                    &&& cannot_make_room(before, error)
                },
            }
        },
        machine is Loading && event->Loaded_0 is Err ==> {
            &&& after == before
            &&& step.ends(Err(CacheError::Backend(event->Loaded_0->Err_0)))
        },
        machine is MakingRoom && event is Flushed && event->Flushed_0 is Err ==> step.ends(
            Err(CacheError::Backend(event->Flushed_0->Err_0)),
        ),
{
    match machine {
        GetOrInsert::Loading { .. } => {
            if let Ok(object) = event->Loaded_0 {
                let (value, room, made_room) = choose|
                    value: Arc<V>,
                    room: CacheState<K, V, D>,
                    made_room: EnsureFreeEntryStep<K, V, D, E>,
                |
                    {
                        &&& *value == object
                        &&& starts_making_room(before, room, made_room)
                        &&& #[trigger] caches_after(key, value, room, made_room, after, step)
                    };
                lemma_starting(before, room, made_room);
                law_room_is_refused_for_a_reason(before, room, made_room);
            }
        },
        _ => {},
    }
}

/// Inserting an object fails with the error of the flush that failed, or because there is no room;
/// and if a flush fails, it fails with that error.
pub proof fn law_insert_fails_for_a_reason<K, V, D: ?Sized, E>(
    machine: Insert<K, V, D>,
    key: K,
    value: Arc<V>,
    before: CacheState<K, V, D>,
    event: Event<V, D, E>,
    after: CacheState<K, V, D>,
    step: InsertStep<K, V, D, E>,
)
    requires
        machine.for_object(key, value),
        machine.fits(before),
        machine.awaits(event),
        machine.steps(before, event, after, step),
    ensures
        step matches Step::Done(Err(error)) ==> match error {
            CacheError::Backend(cause) => !(machine is LockingMap) && event->Flushed_0 == Err::<
                (),
                E,
            >(cause),
            _ => {
                &&& machine is LockingMap
                &&& !before.entries.contains_key(key)
                &&& after == before
                &&& cannot_make_room(before, error)
            },
        },
        event is Flushed && event->Flushed_0 is Err ==> step.ends(
            Err(CacheError::Backend(event->Flushed_0->Err_0)),
        ),
        machine is MakingRoom && step is Done && !step.ends(Ok(()))
            ==> !after.entries.contains_key(key),
{
    if machine is LockingMap && !before.entries.contains_key(key) {
        let (room, made_room) = choose|
            room: CacheState<K, V, D>,
            made_room: EnsureFreeEntryStep<K, V, D, E>,
        | #[trigger]
            starts_making_room(before, room, made_room) && stores_after(
                key,
                value,
                room,
                made_room,
                after,
                step,
            );
        lemma_starting(before, room, made_room);
        law_room_is_refused_for_a_reason(before, room, made_room);
    }
}

/// Making room goes on to its end unless a flush fails, and then ends with that error, the victim
/// being back in the cache as it was.
pub proof fn law_eviction_fails_only_with_a_flush<K, V, D: ?Sized, E>(
    eviction: EnsureFreeEntry<K, V, D>,
    before: CacheState<K, V, D>,
    event: Event<V, D, E>,
    after: CacheState<K, V, D>,
    step: EnsureFreeEntryStep<K, V, D, E>,
)
    requires
        eviction.fits(before),
        eviction.write_back.awaits(event),
        eviction.steps(before, event, after, step),
    ensures
        match event {
            Event::Flushed(Err(error)) => {
                &&& step.ends(Err(CacheError::Backend(error)))
                &&& after.entries.contains_key(eviction.key)
                &&& after.entries[eviction.key] == eviction.entry
            },
            _ => !(step matches Step::Done(Err(_))),
        },
        forall|k: K| #[trigger]
            before.entries.contains_key(k) ==> after.entries.contains_key(k) && after.entries[k]
                == before.entries[k] && after.lent[k] == before.lent[k],
{
}

/// Flushing the cache lets the back end flush every object in it, each once and under its own key,
/// and nothing else.
pub proof fn law_flush_flushes_every_object<K, V, D: ?Sized, E>(
    machine: Flush<D, E>,
    before: CacheState<K, V, D>,
    event: Event<V, D, E>,
    after: CacheState<K, V, D>,
    step: FlushStep<K, V, D, E>,
    listed: Vec<(K, Arc<V>)>,
)
    requires
        machine.steps(before, event, after, step),
        step is Wait,
        step->action == Action::<K, V, D>::FlushEntries(listed),
    ensures
        forall|k: K| #[trigger]
            before.entries.contains_key(k) ==> exists|i: int|
                0 <= i < listed@.len() && #[trigger] listed@[i] == (k, before.object(k)),
        forall|i: int|
            0 <= i < listed@.len() ==> {
                &&& before.entries.contains_key((#[trigger] listed@[i]).0)
                &&& listed@[i].1 == before.object(listed@[i].0)
            },
        forall|i: int, j: int|
            0 <= i < listed@.len() && 0 <= j < listed@.len() && i != j ==> (
            #[trigger] listed@[i]).0 != (#[trigger] listed@[j]).0,
{
    assert forall|k: K| #[trigger] before.entries.contains_key(k) implies exists|i: int|
        0 <= i < listed@.len() && #[trigger] listed@[i] == (k, before.object(k)) by {
        let i = choose|i: int| 0 <= i < listed@.len() && (#[trigger] listed@[i]).0 == k;
        assert(listed@[i] == (k, before.object(k)));
    }
    assert forall|i: int, j: int| 0 <= i < listed@.len() && 0 <= j < listed@.len() && i != j implies (
    #[trigger] listed@[i]).0 != (#[trigger] listed@[j]).0 by {
        if j < i {
            assert(listed@[j].0 != listed@[i].0);
        }
    }
}

/// Flushing the cache goes from the dependencies to its own objects in one go: the map is locked
/// once no dependency is left, and the objects are flushed once it is locked.
pub proof fn law_flush_goes_on<K, V, D: ?Sized, E>(
    machine: Flush<D, E>,
    before: CacheState<K, V, D>,
    event: Event<V, D, E>,
    after: CacheState<K, V, D>,
    step: FlushStep<K, V, D, E>,
)
    requires
        machine.fits(before),
        machine.awaits(event),
        machine.steps(before, event, after, step),
    ensures
        match step {
            Step::Wait { next, action } => match next {
                Flush::LockingDependencies => false,
                Flush::FlushingDependency(dependency) => action == Action::<
                    K,
                    V,
                    D,
                >::FlushDependency(dependency),
                Flush::LockingMap => action is LockMapShared && after.flush_before.len() == 0
                    && !(machine is LockingMap) && !(machine is FlushingEntries),
                Flush::FlushingEntries { first_error } => {
                    ||| machine is LockingMap && action is FlushEntries && first_error is None
                    ||| machine is FlushingEntries && action is ContinueFlush
                        && first_error is Some
                },
            },
            Step::Done(Ok(_)) => machine is FlushingEntries && event->Flushed_0 is Ok,
            Step::Done(Err(_)) => {
                ||| machine is FlushingEntries && event->Flushed_0 is Ok
                ||| machine is FlushingDependency && event->Flushed_0 is Err
            },
        },
        machine is LockingMap ==> step is Wait && step->action is FlushEntries,
{
}

/// Whether an entry is in the cache settles how its retrieval goes on, under either lock: if it is,
/// it ends there and then with its object, and else the exclusive lock is asked for, and then the
/// object.
pub proof fn law_get_looks_first<K, V, D: ?Sized, E>(
    machine: GetOrInsert<K, V, D>,
    key: K,
    before: CacheState<K, V, D>,
    event: Event<V, D, E>,
    after: CacheState<K, V, D>,
    step: GetOrInsertStep<K, V, D, E>,
)
    requires
        machine.for_key(key),
        machine is LockingShared || machine is LockingExclusive,
        machine.steps(before, event, after, step),
    ensures
        if before.entries.contains_key(key) {
            &&& step.ends(Ok(before.object(key)))
            &&& after.entries.dom() == before.entries.dom()
            &&& after.object(key) == before.object(key)
        } else {
            &&& after == before
            &&& machine is LockingShared ==> step.waits(
                GetOrInsert::LockingExclusive { key },
                Action::LockMapExclusive,
            )
            &&& machine is LockingExclusive ==> step.waits(
                GetOrInsert::Loading { key },
                Action::Load { key },
            )
        },
        after.flush_before == before.flush_before,
        after.limit == before.limit,
{
    if before.entries.contains_key(key) {
        assert(after.entries.dom() == before.entries.dom());
    }
}

/// While room is being made for an entry that is being retrieved, the key, the object and the
/// victim stay the same, and the only object that is flushed is the victim's, under its key.
pub proof fn law_get_flushes_the_victim<K, V, D: ?Sized, E>(
    machine: GetOrInsert<K, V, D>,
    key: K,
    before: CacheState<K, V, D>,
    event: Event<V, D, E>,
    after: CacheState<K, V, D>,
    step: GetOrInsertStep<K, V, D, E>,
)
    requires
        machine.for_key(key),
        machine.fits(before),
        machine.awaits(event),
        machine.steps(before, event, after, step),
    ensures
        step matches Step::Wait { next, action } ==> {
            &&& next.for_key(key)
            &&& match next {
                GetOrInsert::MakingRoom { key: _, value, eviction } => {
                    &&& eviction.write_back is FlushingEntry <==> action is FlushEntry
                    &&& action is FlushEntry ==> {
                        &&& action->FlushEntry_key == eviction.key
                        &&& Some(action->FlushEntry_value) == eviction.entry.value
                    }
                    &&& machine matches GetOrInsert::MakingRoom {
                        key: _,
                        value: same_value,
                        eviction: same,
                    } ==> {
                        &&& value == same_value
                        &&& eviction.key == same.key
                        &&& eviction.entry == same.entry
                    }
                    &&& machine is Loading ==> action is LockDependencies
                },
                _ => !(action is FlushEntry) && !(machine is MakingRoom),
            }
        },
{
    if let GetOrInsert::Loading { .. } = machine {
        if let Ok(object) = event->Loaded_0 {
            let (value, room, made_room) = choose|
                value: Arc<V>,
                room: CacheState<K, V, D>,
                made_room: EnsureFreeEntryStep<K, V, D, E>,
            |
                {
                    &&& *value == object
                    &&& starts_making_room(before, room, made_room)
                    &&& #[trigger] caches_after(key, value, room, made_room, after, step)
                };
            lemma_starting(before, room, made_room);
        }
    }
}

/// An object is put under a key that has one only after that was flushed: first the lock on the
/// dependencies is asked for, and nothing but the time of the last access changes.
pub proof fn law_insert_looks_first<K, V, D: ?Sized, E>(
    key: K,
    value: Arc<V>,
    before: CacheState<K, V, D>,
    event: Event<V, D, E>,
    after: CacheState<K, V, D>,
    step: InsertStep<K, V, D, E>,
)
    requires
        (Insert::LockingMap { key, value }).steps(before, event, after, step),
    ensures
        if before.entries.contains_key(key) {
            &&& step matches Step::Wait {
                next: Insert::Replacing { key: same_key, value: same_value, write_back },
                action: Action::LockDependencies,
            }
            &&& same_key == key
            &&& same_value == value
            &&& write_back is LockingDependencies
            &&& after.object(key) == before.object(key)
            &&& after.entries.remove(key) == before.entries.remove(key)
        } else {
            &&& !(step matches Step::Wait { next: Insert::Replacing { .. }, action: _ })
            &&& step.ends(Ok(())) <==> before.entries.len() < before.limit
        },
        after.flush_before == before.flush_before,
        after.limit == before.limit,
{
    if before.entries.contains_key(key) {
        assert(after.entries.remove(key) == before.entries.remove(key));
    } else {
        let (room, made_room) = choose|
            room: CacheState<K, V, D>,
            made_room: EnsureFreeEntryStep<K, V, D, E>,
        | #[trigger]
            starts_making_room(before, room, made_room) && stores_after(
                key,
                value,
                room,
                made_room,
                after,
                step,
            );
        lemma_starting(before, room, made_room);
        law_room_is_refused_for_a_reason(before, room, made_room);
    }
}

/// While an object is being inserted, the key, the object and the victim stay the same, and the
/// only object that is flushed is the existing one under the key, or the victim's under its own.
pub proof fn law_insert_flushes_what_goes<K, V, D: ?Sized, E>(
    machine: Insert<K, V, D>,
    key: K,
    value: Arc<V>,
    before: CacheState<K, V, D>,
    event: Event<V, D, E>,
    after: CacheState<K, V, D>,
    step: InsertStep<K, V, D, E>,
)
    requires
        machine.for_object(key, value),
        machine.fits(before),
        machine.awaits(event),
        machine.steps(before, event, after, step),
    ensures
        step matches Step::Wait { next, action } ==> {
            &&& next.for_object(key, value)
            &&& match next {
                Insert::LockingMap { .. } => false,
                Insert::Replacing { key: _, value: _, write_back } => {
                    &&& write_back is FlushingEntry <==> action is FlushEntry
                    &&& action is FlushEntry ==> {
                        &&& action->FlushEntry_key == key
                        &&& action->FlushEntry_value == before.object(key)
                    }
                    &&& !(machine is MakingRoom)
                },
                Insert::MakingRoom { key: _, value: _, eviction } => {
                    &&& eviction.write_back is FlushingEntry <==> action is FlushEntry
                    &&& action is FlushEntry ==> {
                        &&& action->FlushEntry_key == eviction.key
                        &&& Some(action->FlushEntry_value) == eviction.entry.value
                    }
                    &&& machine matches Insert::MakingRoom { key: _, value: _, eviction: same } ==> {
                        &&& eviction.key == same.key
                        &&& eviction.entry == same.entry
                    }
                    &&& machine is LockingMap ==> action is LockDependencies
                    &&& !(machine is Replacing)
                },
            }
        },
        step.ends(Ok(())) && machine is MakingRoom ==> machine->MakingRoom_eviction.write_back
            is FlushingEntry && event->Flushed_0 is Ok,
        step.ends(Ok(())) && machine is Replacing ==> machine->write_back is FlushingEntry
            && event->Flushed_0 is Ok,
{
    if machine is LockingMap && !before.entries.contains_key(key) {
        let (room, made_room) = choose|
            room: CacheState<K, V, D>,
            made_room: EnsureFreeEntryStep<K, V, D, E>,
        | #[trigger]
            starts_making_room(before, room, made_room) && stores_after(
                key,
                value,
                room,
                made_room,
                after,
                step,
            );
        lemma_starting(before, room, made_room);
    }
}

/// How many phases a flush of the cache can still go through.
pub open spec fn flush_phases_left<D: ?Sized, E>(machine: Flush<D, E>) -> nat {
    match machine {
        Flush::LockingDependencies => 3,
        Flush::FlushingDependency(_) => 2,
        Flush::LockingMap => 1,
        Flush::FlushingEntries { .. } => 0,
    }
}

/// Flushing the cache gets closer to its end with each step: the next phase is reached, another
/// dependency was flushed, or another object failed.
pub proof fn law_flush_gets_on<K, V, D: ?Sized, E>(
    machine: Flush<D, E>,
    before: CacheState<K, V, D>,
    event: Event<V, D, E>,
    after: CacheState<K, V, D>,
    step: FlushStep<K, V, D, E>,
)
    requires
        machine.fits(before),
        machine.awaits(event),
        machine.steps(before, event, after, step),
    ensures
        step matches Step::Wait { next, action } ==> {
            ||| flush_phases_left(next) < flush_phases_left(machine)
            ||| machine is FlushingDependency && next is FlushingDependency
                && after.flush_before.len() < before.flush_before.len()
            ||| machine is FlushingEntries && event->Flushed_0 is Err
        },
{
}

/// Invalidation gets closer to its end with each step, one entry at a time; it changes neither the
/// limit nor the time, and clears the dependencies only when it ends with success.
pub proof fn law_invalidate_gets_on<K, V, D: ?Sized, E>(
    machine: Invalidate<K>,
    before: CacheState<K, V, D>,
    after: CacheState<K, V, D>,
    step: InvalidateStep<K, V, D, E>,
)
    requires
        machine.fits(before),
        machine.steps(before, after, step),
    ensures
        match step {
            Step::Wait { next: Invalidate::LockingMap, action: _ } => false,
            Step::Wait { next: Invalidate::Evicting { keys, done, in_use }, action } => {
                &&& action is Evict || action is Retain
                &&& 0 < done <= keys@.len()
                &&& match machine {
                    Invalidate::LockingMap => done == 1,
                    Invalidate::Evicting { keys: same, done: earlier, in_use: _ } => keys@ == same@
                        && done == earlier + 1,
                    Invalidate::LockingDependencies => false,
                }
            },
            Step::Wait { next: Invalidate::LockingDependencies, action } => {
                &&& action is LockDependencies
                &&& after.entries.is_empty()
                &&& !(machine is LockingDependencies)
            },
            Step::Done(Ok(_)) => machine is LockingDependencies,
            Step::Done(Err(_)) => !(machine is LockingDependencies),
        },
        step.ends(Ok(())) ==> after.flush_before.len() == 0,
        !step.ends(Ok(())) ==> after.flush_before == before.flush_before,
        after.limit == before.limit,
        after.lru_timer == before.lru_timer,
{
    match machine {
        Invalidate::LockingMap => {
            let keys = choose|keys: Seq<K>| #[trigger]
                before.keyed_by(keys) && invalidates_next(
                    keys,
                    0,
                    Seq::empty(),
                    before,
                    after,
                    step,
                );
            lemma_none_left(before, keys, 0, Seq::empty());
        },
        Invalidate::Evicting { keys, done, in_use } => {
            lemma_none_left(before, keys@, done as int, in_use@);
        },
        Invalidate::LockingDependencies => {},
    }
}

/// When all keys were dealt with and none is in use, the cache is empty.
proof fn lemma_none_left<K, V, D: ?Sized>(
    cache: CacheState<K, V, D>,
    keys: Seq<K>,
    done: int,
    in_use: Seq<K>,
)
    requires
        0 <= done <= keys.len(),
        cache.keyed_by(in_use + keys.skip(done)) || (done == 0 && in_use.len() == 0
            && cache.keyed_by(keys)),
    ensures
        done == keys.len() && in_use.len() == 0 ==> cache.entries.is_empty(),
{
    if done == keys.len() && in_use.len() == 0 {
        assert(in_use + keys.skip(done) == Seq::<K>::empty());
        assert forall|k: K| !cache.entries.contains_key(k) by {
            if keys.len() == 0 {
                assert(!keys.contains(k));
            }
            assert(!Seq::<K>::empty().contains(k));
            assert(!(in_use + keys.skip(done)).contains(k));
        }
        assert(cache.entries.dom() =~= Set::empty());
        assert(cache.entries =~= Map::empty());
    }
}

} // verus!
