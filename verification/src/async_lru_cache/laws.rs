//! What the operations on the cache promise together.

use crate::async_lru_cache::entry::AsyncLruCacheEntry;
use crate::async_lru_cache::error::CacheError;
use crate::async_lru_cache::eviction::{starts_making_room, EnsureFreeEntryStep};
use crate::async_lru_cache::eviction_laws::{law_eviction_loses_nothing, lemma_starting};
use crate::async_lru_cache::flush::{Flush, FlushStep};
use crate::async_lru_cache::get_or_insert::{caches_after, GetOrInsert, GetOrInsertStep};
use crate::async_lru_cache::insert::{stores_after, Insert, InsertStep};
use crate::async_lru_cache::invalidate::{Invalidate, InvalidateStep};
use crate::async_lru_cache::state::{CacheState, Dependency};
use crate::async_lru_cache::step::{Action, Event, Step};
use crate::async_lru_cache::write_back::{next_dependency, DependencyStep, WriteBack};
use std::sync::Arc;
use vstd::prelude::*;

verus! {

/// `entries` are `base`, but for at most one entry that is gone.
pub open spec fn all_but_one<K, V>(
    entries: Map<K, AsyncLruCacheEntry<V>>,
    base: Map<K, AsyncLruCacheEntry<V>>,
) -> bool {
    entries == base || exists|key: K| entries == #[trigger] base.remove(key)
}

/// What is left of the entries `base` that were there when the retrieval of an entry began.
pub open spec fn get_keeps<K, V, D: ?Sized>(
    machine: GetOrInsert<K, V, D>,
    base: Map<K, AsyncLruCacheEntry<V>>,
    cache: CacheState<K, V, D>,
) -> bool {
    match machine {
        GetOrInsert::MakingRoom { key: _, value: _, eviction } => {
            &&& cache.entries.insert(eviction.key, eviction.entry) == base
            &&& base.len() == cache.limit
        },
        _ => cache.entries == base,
    }
}

/// Retrieving an entry loses at most one of the other entries, and none if it fails.  A new entry
/// takes the place of another only in a full cache, which stays full.
pub proof fn law_get_keeps_other_entries<K, V, D: ?Sized, E>(
    machine: GetOrInsert<K, V, D>,
    key: K,
    base: Map<K, AsyncLruCacheEntry<V>>,
    before: CacheState<K, V, D>,
    event: Event<V, D, E>,
    after: CacheState<K, V, D>,
    step: GetOrInsertStep<K, V, D, E>,
)
    requires
        before.wf(),
        machine.for_key(key),
        machine.fits(before),
        machine.awaits(event),
        get_keeps(machine, base, before),
        machine.steps(before, event, after, step),
    ensures
        match step {
            Step::Wait { next, action } => get_keeps(next, base, after),
            Step::Done(Ok(_)) => {
                &&& all_but_one(after.entries.remove(key), base.remove(key))
                &&& after.entries.len() == if base.contains_key(key) || base.len() == after.limit {
                    base.len()
                } else {
                    base.len() + 1
                }
            },
            Step::Done(Err(_)) => after.entries == base,
        },
{
    match machine {
        GetOrInsert::LockingShared { .. } | GetOrInsert::LockingExclusive { .. } => {
            if before.entries.contains_key(key) {
                assert(after.entries.remove(key) == base.remove(key));
            }
        },
        GetOrInsert::Loading { .. } => {
            if let Ok(object) = event->Loaded_0 {
                let (value, room, made_room) = choose|
                    value: Arc<V>,
                    room: CacheState<K, V, D>,
                    made_room: EnsureFreeEntryStep<K, V, D, E>,
                |
                    {
                        &&& *value == object
                        &&& starts_making_room(before, room, made_room)
                        &&& #[trigger] caches_after(key, value, room, made_room, after, step)
                    };
                lemma_starting(before, room, made_room);
                if step matches Step::Done(Ok(_)) {
                    assert(after.entries.remove(key) == base.remove(key));
                }
            }
        },
        GetOrInsert::MakingRoom { key: _, value, eviction } => {
            let (room, made_room) = choose|
                room: CacheState<K, V, D>,
                made_room: EnsureFreeEntryStep<K, V, D, E>,
            | #[trigger]
                eviction.steps(before, event, room, made_room) && caches_after(
                    key,
                    value,
                    room,
                    made_room,
                    after,
                    step,
                );
            law_eviction_loses_nothing(eviction, before, event, room, made_room);
            if step matches Step::Done(Ok(_)) {
                assert(after.entries.remove(key) == base.remove(key).remove(eviction.key));
            }
        },
    }
}

/// Retrieving an entry lets the back end load the object before anything else, and makes room
/// for it only once it was loaded.
pub proof fn law_get_loads_first<K, V, D: ?Sized, E>(
    machine: GetOrInsert<K, V, D>,
    key: K,
    before: CacheState<K, V, D>,
    event: Event<V, D, E>,
    after: CacheState<K, V, D>,
    step: GetOrInsertStep<K, V, D, E>,
)
    requires
        machine.for_key(key),
        machine.awaits(event),
        machine.steps(before, event, after, step),
    ensures
        machine is LockingExclusive && !before.entries.contains_key(key) ==> {
            &&& after == before
            &&& step.waits(GetOrInsert::Loading { key }, Action::Load { key })
        },
        step matches Step::Wait { next: GetOrInsert::MakingRoom { key: _, value, eviction }, action }
            ==> {
            ||| machine is Loading && event->Loaded_0 == Ok::<V, E>(*value)
            ||| (machine matches GetOrInsert::MakingRoom { key: _, value: same, eviction: _ }
                && value == same)
        },
{
}

/// Once the object was loaded and an entry is being evicted, retrieving the entry fails only if
/// a flush fails.
pub proof fn law_get_fails_only_with_a_flush<K, V, D: ?Sized, E>(
    machine: GetOrInsert<K, V, D>,
    before: CacheState<K, V, D>,
    event: Event<V, D, E>,
    after: CacheState<K, V, D>,
    step: GetOrInsertStep<K, V, D, E>,
)
    requires
        machine is MakingRoom,
        machine.fits(before),
        machine.awaits(event),
        machine.steps(before, event, after, step),
        !(event matches Event::Flushed(Err(_))),
    ensures
        !(step matches Step::Done(Err(_))),
{
}

/// What is left of the entries `base` that were there when the insertion of an object began.
pub open spec fn insert_keeps<K, V, D: ?Sized>(
    machine: Insert<K, V, D>,
    base: Map<K, AsyncLruCacheEntry<V>>,
    cache: CacheState<K, V, D>,
) -> bool {
    match machine {
        Insert::LockingMap { .. } => cache.entries == base,
        Insert::Replacing { key, value: _, write_back: _ } => cache.entries.remove(key)
            == base.remove(key),
        Insert::MakingRoom { key: _, value: _, eviction } => cache.entries.insert(
            eviction.key,
            eviction.entry,
        ) == base,
    }
}

/// Inserting an object loses at most one of the other entries, and none if it fails.
pub proof fn law_insert_keeps_other_entries<K, V, D: ?Sized, E>(
    machine: Insert<K, V, D>,
    key: K,
    value: Arc<V>,
    base: Map<K, AsyncLruCacheEntry<V>>,
    before: CacheState<K, V, D>,
    event: Event<V, D, E>,
    after: CacheState<K, V, D>,
    step: InsertStep<K, V, D, E>,
)
    requires
        machine.for_object(key, value),
        machine.fits(before),
        machine.awaits(event),
        insert_keeps(machine, base, before),
        machine.steps(before, event, after, step),
    ensures
        match step {
            Step::Wait { next, action } => insert_keeps(next, base, after),
            Step::Done(Ok(_)) => all_but_one(after.entries.remove(key), base.remove(key)),
            Step::Done(Err(_)) => after.entries.remove(key) == base.remove(key),
        },
{
    match machine {
        Insert::LockingMap { .. } => {
            if before.entries.contains_key(key) {
                assert(after.entries.remove(key) == base.remove(key));
            } else {
                let (room, made_room) = choose|
                    room: CacheState<K, V, D>,
                    made_room: EnsureFreeEntryStep<K, V, D, E>,
                | #[trigger]
                    starts_making_room(before, room, made_room) && stores_after(
                        key,
                        value,
                        room,
                        made_room,
                        after,
                        step,
                    );
                lemma_starting(before, room, made_room);
                if step matches Step::Done(Ok(_)) {
                    assert(after.entries.remove(key) == base.remove(key));
                }
            }
        },
        Insert::Replacing { .. } => {
            assert(after.entries.remove(key) == before.entries.remove(key));
        },
        Insert::MakingRoom { key: _, value: _, eviction } => {
            let (room, made_room) = choose|
                room: CacheState<K, V, D>,
                made_room: EnsureFreeEntryStep<K, V, D, E>,
            | #[trigger]
                eviction.steps(before, event, room, made_room) && stores_after(
                    key,
                    value,
                    room,
                    made_room,
                    after,
                    step,
                );
            law_eviction_loses_nothing(eviction, before, event, room, made_room);
            if step matches Step::Done(Ok(_)) {
                assert(after.entries.remove(key) == base.remove(key).remove(eviction.key));
            }
        },
    }
}

/// Retrieving an entry that is in the cache needs no outside work but the lock, and gives the
/// cached object; no other entry changes.
pub proof fn law_get_hits<K, V, D: ?Sized, E>(
    key: K,
    before: CacheState<K, V, D>,
    after: CacheState<K, V, D>,
    step: GetOrInsertStep<K, V, D, E>,
)
    requires
        before.entries.contains_key(key),
        (GetOrInsert::LockingShared { key }).steps(before, Event::Locked, after, step),
    ensures
        step.ends(Ok(before.object(key))),
        after.object(key) == before.object(key),
        after.entries.dom() == before.entries.dom(),
        forall|k: K|
            k != key && #[trigger] before.entries.contains_key(k) ==> after.entries[k]
                == before.entries[k],
{
    assert(after.entries.dom() == before.entries.dom());
}

/// When an entry was retrieved, its object is in the cache under the key.
pub proof fn law_get_leaves_cached<K, V, D: ?Sized, E>(
    machine: GetOrInsert<K, V, D>,
    key: K,
    before: CacheState<K, V, D>,
    event: Event<V, D, E>,
    after: CacheState<K, V, D>,
    step: GetOrInsertStep<K, V, D, E>,
    object: Arc<V>,
)
    requires
        machine.for_key(key),
        machine.awaits(event),
        machine.steps(before, event, after, step),
        step.ends(Ok(object)),
    ensures
        after.entries.contains_key(key),
        after.object(key) == object,
{
}

/// When an object was inserted, it is in the cache under the key.
pub proof fn law_insert_leaves_cached<K, V, D: ?Sized, E>(
    machine: Insert<K, V, D>,
    key: K,
    value: Arc<V>,
    before: CacheState<K, V, D>,
    event: Event<V, D, E>,
    after: CacheState<K, V, D>,
    step: InsertStep<K, V, D, E>,
)
    requires
        machine.for_object(key, value),
        machine.steps(before, event, after, step),
        step.ends(Ok(())),
    ensures
        after.entries.contains_key(key),
        after.object(key) == value,
{
}

/// What was inserted is what is retrieved next.
pub proof fn law_get_after_insert<K, V, D: ?Sized, E>(
    machine: Insert<K, V, D>,
    key: K,
    value: Arc<V>,
    before: CacheState<K, V, D>,
    event: Event<V, D, E>,
    inserted: CacheState<K, V, D>,
    insert_step: InsertStep<K, V, D, E>,
    after: CacheState<K, V, D>,
    get_step: GetOrInsertStep<K, V, D, E>,
)
    requires
        machine.for_object(key, value),
        machine.steps(before, event, inserted, insert_step),
        insert_step.ends(Ok(())),
        (GetOrInsert::LockingShared { key }).steps(inserted, Event::Locked, after, get_step),
    ensures
        get_step.ends(Ok(value)),
{
    law_insert_leaves_cached(machine, key, value, before, event, inserted, insert_step);
    law_get_hits(key, inserted, after, get_step);
}

/// What was retrieved, loaded or not, is what is retrieved next.
pub proof fn law_get_after_get<K, V, D: ?Sized, E>(
    machine: GetOrInsert<K, V, D>,
    key: K,
    object: Arc<V>,
    before: CacheState<K, V, D>,
    event: Event<V, D, E>,
    retrieved: CacheState<K, V, D>,
    first_step: GetOrInsertStep<K, V, D, E>,
    after: CacheState<K, V, D>,
    second_step: GetOrInsertStep<K, V, D, E>,
)
    requires
        machine.for_key(key),
        machine.awaits(event),
        machine.steps(before, event, retrieved, first_step),
        first_step.ends(Ok(object)),
        (GetOrInsert::LockingShared { key }).steps(retrieved, Event::Locked, after, second_step),
    ensures
        second_step.ends(Ok(object)),
{
    law_get_leaves_cached(machine, key, before, event, retrieved, first_step, object);
    law_get_hits(key, retrieved, after, second_step);
}

/// While an existing object is being replaced, it stays in the cache until it was flushed; if the
/// flush fails, it is there as before.
pub proof fn law_insert_flushes_existing_first<K, V, D: ?Sized, E>(
    key: K,
    value: Arc<V>,
    write_back: WriteBack<D>,
    before: CacheState<K, V, D>,
    event: Event<V, D, E>,
    after: CacheState<K, V, D>,
    step: InsertStep<K, V, D, E>,
)
    requires
        before.entries.contains_key(key),
        write_back.awaits(event),
        (Insert::Replacing { key, value, write_back }).steps(before, event, after, step),
    ensures
        step.ends(Ok(())) ==> write_back is FlushingEntry && event->Flushed_0 is Ok,
        !step.ends(Ok(())) ==> after.entries == before.entries,
        step matches Step::Wait { next, action } ==> (action is FlushEntry ==> action
            == (Action::<K, V, D>::FlushEntry { key, value: before.object(key) })),
{
}

/// Retrieving an entry lets the back end flush an object only when no dependency is left.
pub proof fn law_get_flushes_dependencies_first<K, V, D: ?Sized, E>(
    machine: GetOrInsert<K, V, D>,
    before: CacheState<K, V, D>,
    event: Event<V, D, E>,
    after: CacheState<K, V, D>,
    step: GetOrInsertStep<K, V, D, E>,
)
    requires
        machine.steps(before, event, after, step),
    ensures
        step matches Step::Wait { next, action } ==> {
            &&& action is FlushEntry ==> after.flush_before.len() == 0
            &&& !(action is FlushEntries)
        },
{
}

/// Inserting an object lets the back end flush an object only when no dependency is left.
pub proof fn law_insert_flushes_dependencies_first<K, V, D: ?Sized, E>(
    machine: Insert<K, V, D>,
    before: CacheState<K, V, D>,
    event: Event<V, D, E>,
    after: CacheState<K, V, D>,
    step: InsertStep<K, V, D, E>,
)
    requires
        machine.steps(before, event, after, step),
    ensures
        step matches Step::Wait { next, action } ==> {
            &&& action is FlushEntry ==> after.flush_before.len() == 0
            &&& !(action is FlushEntries)
        },
{
}

/// Flushing the cache lets the back end flush objects only when no dependency is left.
pub proof fn law_flush_flushes_dependencies_first<K, V, D: ?Sized, E>(
    machine: Flush<D, E>,
    before: CacheState<K, V, D>,
    event: Event<V, D, E>,
    after: CacheState<K, V, D>,
    step: FlushStep<K, V, D, E>,
)
    requires
        machine.fits(before),
        machine.steps(before, event, after, step),
    ensures
        step matches Step::Wait { next, action } ==> {
            &&& action is FlushEntries ==> after.flush_before.len() == 0
            &&& !(action is FlushEntry)
        },
{
}

/// Flushing the cache does not change its entries.
pub proof fn law_flush_keeps_entries<K, V, D: ?Sized, E>(
    machine: Flush<D, E>,
    before: CacheState<K, V, D>,
    event: Event<V, D, E>,
    after: CacheState<K, V, D>,
    step: FlushStep<K, V, D, E>,
)
    requires
        machine.steps(before, event, after, step),
    ensures
        after.entries == before.entries,
        after.lru_timer == before.lru_timer,
{
}

/// How the flush of the dependencies `flush_before` stands, and what is left of the list, when
/// the dependencies flushed so far went as `outcomes` says.
pub open spec fn dependencies_after<D: ?Sized, E>(
    flush_before: Seq<Dependency<D>>,
    outcomes: Seq<Result<(), E>>,
) -> (DependencyStep<D, E>, Seq<Dependency<D>>)
    decreases outcomes.len(),
{
    if outcomes.len() == 0 {
        next_dependency(flush_before, None)
    } else {
        let (step, left) = dependencies_after(flush_before, outcomes.drop_last());
        match step {
            DependencyStep::Flush(dependency) => next_dependency(
                left,
                Some((dependency, outcomes.last())),
            ),
            _ => (step, left),
        }
    }
}

/// All dependencies are flushed, from the last to the first; each leaves the list once it was
/// flushed.
pub proof fn law_dependencies_flushed_in_turn<D: ?Sized, E>(
    flush_before: Seq<Dependency<D>>,
    outcomes: Seq<Result<(), E>>,
)
    requires
        outcomes.len() <= flush_before.len(),
        forall|i: int| 0 <= i < outcomes.len() ==> #[trigger] outcomes[i] is Ok,
    ensures
        ({
            let (step, left) = dependencies_after(flush_before, outcomes);
            let n = flush_before.len() - outcomes.len();
            if n > 0 {
                &&& step == DependencyStep::<D, E>::Flush(flush_before[n - 1])
                &&& left == flush_before.take(n - 1)
            } else {
                &&& step == DependencyStep::<D, E>::Flushed
                &&& left.len() == 0
            }
        }),
    decreases outcomes.len(),
{
    if outcomes.len() > 0 {
        assert(outcomes.last() == outcomes[outcomes.len() - 1]);
        law_dependencies_flushed_in_turn(flush_before, outcomes.drop_last());
    }
    let n = flush_before.len() - outcomes.len();
    if n > 0 {
        assert(flush_before.take(n).drop_last() == flush_before.take(n - 1));
        assert(flush_before.take(flush_before.len() as int) == flush_before);
    }
}

/// When a dependency cannot be flushed, it stays on the list with those that come before it, and
/// its error is passed on.
pub proof fn law_failed_dependency_stays<D: ?Sized, E>(
    flush_before: Seq<Dependency<D>>,
    outcomes: Seq<Result<(), E>>,
    error: E,
)
    requires
        outcomes.len() < flush_before.len(),
        forall|i: int| 0 <= i < outcomes.len() ==> #[trigger] outcomes[i] is Ok,
    ensures
        dependencies_after(flush_before, outcomes.push(Err(error))) == (
            DependencyStep::<D, E>::Failed(error),
            flush_before.take(flush_before.len() - outcomes.len()),
        ),
{
    let n = flush_before.len() - outcomes.len();
    law_dependencies_flushed_in_turn(flush_before, outcomes);
    assert(outcomes.push(Err(error)).drop_last() == outcomes);
    assert(flush_before.take(n - 1).push(flush_before[n - 1]) == flush_before.take(n));
}

/// Flushing all objects goes on from `step` to `next_step`, the cache being as `found`, when an
/// object could not be flushed because of `error`.
pub open spec fn flushes_past<K, V, D: ?Sized, E>(
    step: FlushStep<K, V, D, E>,
    found: CacheState<K, V, D>,
    error: E,
    next_step: FlushStep<K, V, D, E>,
) -> bool {
    &&& step matches Step::Wait { next, action: _ }
    &&& next.steps(found, Event::Flushed(Err(error)), found, next_step)
}

/// `steps` are the steps of flushing all objects, from when they were all started to when some
/// could not be flushed because of `errors`, in this order.
pub open spec fn is_run_of_flushing<K, V, D: ?Sized, E>(
    steps: Seq<FlushStep<K, V, D, E>>,
    found: Seq<CacheState<K, V, D>>,
    errors: Seq<E>,
) -> bool {
    &&& steps.len() == errors.len() + 1
    &&& found.len() == errors.len()
    &&& steps[0] matches Step::Wait { next, action: _ }
    &&& next == Flush::<D, E>::FlushingEntries { first_error: None }
    &&& forall|i: int|
        0 <= i < errors.len() ==> #[trigger] flushes_past(
            steps[i],
            found[i],
            errors[i],
            steps[i + 1],
        )
}

/// However many objects could not be flushed, flushing goes on with the others.
pub proof fn law_flush_continues_past_errors<K, V, D: ?Sized, E>(
    steps: Seq<FlushStep<K, V, D, E>>,
    found: Seq<CacheState<K, V, D>>,
    errors: Seq<E>,
)
    requires
        is_run_of_flushing(steps, found, errors),
        errors.len() > 0,
    ensures
        steps.last().waits(
            Flush::FlushingEntries { first_error: Some(errors[0]) },
            Action::ContinueFlush,
        ),
    decreases errors.len(),
{
    let n = errors.len() - 1;
    assert(flushes_past(steps[n], found[n], errors[n], steps[n + 1]));
    if n > 0 {
        assert forall|i: int| 0 <= i < n implies #[trigger] flushes_past(
            steps.drop_last()[i],
            found.drop_last()[i],
            errors.drop_last()[i],
            steps.drop_last()[i + 1],
        ) by {
            assert(flushes_past(steps[i], found[i], errors[i], steps[i + 1]));
        }
        law_flush_continues_past_errors(
            steps.drop_last(),
            found.drop_last(),
            errors.drop_last(),
        );
    }
}

/// When all objects are done, the flush ends with the first error that was met, if any.
pub proof fn law_flush_reports_first_error<K, V, D: ?Sized, E>(
    steps: Seq<FlushStep<K, V, D, E>>,
    found: Seq<CacheState<K, V, D>>,
    errors: Seq<E>,
    before: CacheState<K, V, D>,
    after: CacheState<K, V, D>,
    step: FlushStep<K, V, D, E>,
)
    requires
        is_run_of_flushing(steps, found, errors),
        steps.last() matches Step::Wait { next, action } ==> next.steps(
            before,
            Event::Flushed(Ok(())),
            after,
            step,
        ),
    ensures
        errors.len() == 0 ==> step.ends(Ok(())),
        errors.len() > 0 ==> step.ends(Err(errors[0])),
{
    if errors.len() > 0 {
        law_flush_continues_past_errors(steps, found, errors);
    }
}

/// Invalidation only ever removes entries, and never changes one.
pub proof fn law_invalidate_only_removes<K, V, D: ?Sized, E>(
    machine: Invalidate<K>,
    before: CacheState<K, V, D>,
    after: CacheState<K, V, D>,
    step: InvalidateStep<K, V, D, E>,
)
    requires
        machine.steps(before, after, step),
    ensures
        forall|k: K| #[trigger]
            after.entries.contains_key(k) ==> before.entries.contains_key(k) && after.entries[k]
                == before.entries[k],
        forall|k: K| #[trigger]
            before.entries.contains_key(k) && !after.entries.contains_key(k) ==> (step matches Step::Wait {
                next,
                action,
            } && action == (Action::<K, V, D>::Evict { key: k, object: *before.object(k) })),
{
}

/// After invalidation failed, the cache holds just the entries that are in use; after it
/// succeeded, it holds nothing and depends on nothing.
pub proof fn law_invalidate_ends<K, V, D: ?Sized, E>(
    machine: Invalidate<K>,
    before: CacheState<K, V, D>,
    after: CacheState<K, V, D>,
    step: InvalidateStep<K, V, D, E>,
)
    requires
        machine.fits(before),
        machine.steps(before, after, step),
    ensures
        match step {
            Step::Done(Ok(_)) => after.entries.is_empty() && after.flush_before.len() == 0,
            Step::Done(Err(error)) => {
                &&& error matches CacheError::StillInUse(left)
                &&& left@.len() > 0
                &&& after.keyed_by(left@)
                &&& after.flush_before == before.flush_before
            },
            Step::Wait { next, action } => after.flush_before == before.flush_before,
        },
{
    if let Invalidate::Evicting { keys, done, in_use } = machine {
        if done >= keys@.len() {
            assert(in_use@ + keys@.skip(done as int) == in_use@);
        }
    }
}

/// How many phases a flush of one object can still go through.
pub open spec fn phases_left<D: ?Sized>(write_back: WriteBack<D>) -> nat {
    match write_back {
        WriteBack::LockingDependencies => 3,
        WriteBack::FlushingDependency(_) => 2,
        WriteBack::FlushingEntry => 1,
    }
}

/// How many phases the retrieval of an entry can still go through.
pub open spec fn get_phases_left<K, V, D: ?Sized>(machine: GetOrInsert<K, V, D>) -> nat {
    match machine {
        GetOrInsert::LockingShared { .. } => 6,
        GetOrInsert::LockingExclusive { .. } => 5,
        GetOrInsert::Loading { .. } => 4,
        GetOrInsert::MakingRoom { key: _, value: _, eviction } => phases_left(eviction.write_back),
    }
}

/// How many phases the insertion of an object can still go through.
pub open spec fn insert_phases_left<K, V, D: ?Sized>(machine: Insert<K, V, D>) -> nat {
    match machine {
        Insert::LockingMap { .. } => 4,
        Insert::Replacing { key: _, value: _, write_back } => phases_left(write_back),
        Insert::MakingRoom { key: _, value: _, eviction } => phases_left(eviction.write_back),
    }
}

/// Retrieving an entry gets closer to its end with each step: the next phase is reached, or
/// another dependency was flushed.
pub proof fn law_get_ends<K, V, D: ?Sized, E>(
    machine: GetOrInsert<K, V, D>,
    before: CacheState<K, V, D>,
    event: Event<V, D, E>,
    after: CacheState<K, V, D>,
    step: GetOrInsertStep<K, V, D, E>,
)
    requires
        machine.fits(before),
        machine.awaits(event),
        machine.steps(before, event, after, step),
    ensures
        step matches Step::Wait { next, action } ==> {
            ||| get_phases_left(next) < get_phases_left(machine)
            ||| get_phases_left(next) == get_phases_left(machine) && after.flush_before.len()
                < before.flush_before.len()
        },
{
}

/// Inserting an object gets closer to its end with each step: the next phase is reached, or
/// another dependency was flushed.
pub proof fn law_insert_ends<K, V, D: ?Sized, E>(
    machine: Insert<K, V, D>,
    before: CacheState<K, V, D>,
    event: Event<V, D, E>,
    after: CacheState<K, V, D>,
    step: InsertStep<K, V, D, E>,
)
    requires
        machine.fits(before),
        machine.awaits(event),
        machine.steps(before, event, after, step),
    ensures
        step matches Step::Wait { next, action } ==> {
            ||| insert_phases_left(next) < insert_phases_left(machine)
            ||| insert_phases_left(next) == insert_phases_left(machine) && after.flush_before.len()
                < before.flush_before.len()
        },
{
}

} // verus!
